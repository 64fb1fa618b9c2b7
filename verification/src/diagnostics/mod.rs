//! Playing scenarios and recording what the window does.

use crate::numbers;
use crate::numbers::dec_of;
use crate::text;
use crate::text::char_byte_len;
use crate::text::chars_of;
use crate::text::extend;
use crate::text::matches_at;
use crate::text::piece;
use crate::text::push_text;
use crate::text::string_of;
use vstd::prelude::*;

pub mod collector;
pub mod runner;

pub use collector::DiagCollector;
pub use collector::FrameSnapshot;
pub use runner::DiagScenarioRunner;
pub use runner::ScenarioAction;

verus! {

/// How many bytes of the text a long canned answer repeats.
pub const MOCK_HEAD_BYTES: usize = 20;

/// How many lines of filling a long canned answer has.
pub const MOCK_LINES: u64 = 15;

/// The canned answer in one long line.
pub const MOCK_ONE_LINE: &'static str = "[mock] This is a single long line that should wrap within the overlay width to verify \
    that text wrapping works correctly when the result is just one continuous sentence \
    without any explicit line breaks in the content.";

/// As many of the first characters of `s` as `n` bytes hold.
pub open spec fn head(s: Seq<char>, n: int) -> Seq<char>
    decreases s.len(),
{
    if s.len() == 0 || text::char_bytes(s[0]) > n {
        seq![]
    } else {
        seq![s[0]] + head(s.drop_first(), n - text::char_bytes(s[0]))
    }
}

/// The lines that fill a long canned answer.
pub open spec fn filling(n: int) -> Seq<char>
    decreases n,
{
    if n <= 0 {
        seq![]
    } else {
        filling(n - 1) + "\nLine "@ + numbers::dec(n as nat)
            + ": This is a mock translation line to test scroll behavior and viewport sizing."@
    }
}

/// What a long canned answer to a text that starts with `head` says.
pub open spec fn long_answer(head: Seq<char>) -> Seq<char> {
    "[mock] Translated output for: "@ + head + "..."@ + filling(MOCK_LINES as int)
}

fn head_of(v: &[char], n: usize) -> (r: Vec<char>)
    ensures
        r@ == head(v@, n as int),
{
    let mut i: usize = 0;
    let mut left: usize = n;
    assert(v@.skip(0) =~= v@);
    assert(v@.take(0) + head(v@.skip(0), left as int) =~= head(v@, n as int));
    while i < v.len() && char_byte_len(v[i]) <= left
        invariant
            i <= v@.len(),
            v@.take(i as int) + head(v@.skip(i as int), left as int) == head(v@, n as int),
        decreases v.len() - i,
    {
        assert(v@.skip(i as int).drop_first() =~= v@.skip(i + 1));
        assert(v@.take(i as int) + seq![v@[i as int]] =~= v@.take(i + 1));
        let ghost rest = head(v@.skip(i + 1), left - text::char_bytes(v@[i as int]));
        assert(v@.take(i as int) + (seq![v@[i as int]] + rest) =~= v@.take(i as int)
            + seq![v@[i as int]] + rest);
        left -= char_byte_len(v[i]);
        i += 1;
    }
    let r = piece(v, 0, i);
    assert(r@ =~= v@.take(i as int));
    assert(head(v@.skip(i as int), left as int) =~= seq![]);
    assert(r@ + Seq::<char>::empty() =~= r@);
    r
}

proof fn lemma_marks(s: Seq<char>)
    ensures
        text::starts_with(MOCK_ONE_LINE@, "[mock] "@),
        text::starts_with("[mock] Translated: "@ + s, "[mock] "@),
        forall|h: Seq<char>| text::starts_with(#[trigger] long_answer(h), "[mock] "@),
{
    reveal_strlit("[mock] ");
    reveal_strlit("[mock] Translated: ");
    reveal_strlit("[mock] Translated output for: ");
    reveal_strlit(
        "[mock] This is a single long line that should wrap within the overlay width to verify \
    that text wrapping works correctly when the result is just one continuous sentence \
    without any explicit line breaks in the content.",
    );
    let m = "[mock] "@;
    assert(MOCK_ONE_LINE@.subrange(0, 7) =~= m);
    assert(("[mock] Translated: "@ + s).subrange(0, 7) =~= m);
    assert forall|h: Seq<char>| text::starts_with(#[trigger] long_answer(h), m) by {
        assert(long_answer(h).subrange(0, 7) =~= m);
    }
}

/// A canned answer: an error for a text that asks for one, and otherwise an
/// answer as long as the text suggests, marked as one.
pub fn mock_response(input: &str) -> (r: Result<String, String>)
    ensures
        match r {
            Err(e) => text::starts_with(input@, "__ERROR__"@) && e@
                == "Connection refused: vLLM server not reachable at localhost:8000"@,
            Ok(answer) => !text::starts_with(input@, "__ERROR__"@) && answer@ == (if input@ == "A"@ {
                MOCK_ONE_LINE@
            } else if text::byte_len(input@) < MOCK_HEAD_BYTES {
                "[mock] Translated: "@ + input@
            } else {
                long_answer(head(input@, MOCK_HEAD_BYTES as int))
            }),
        },
        r matches Ok(answer) ==> text::starts_with(answer@, "[mock] "@),
{
    proof {
        lemma_marks(input@);
    }
    let v = chars_of(input);
    let mark = chars_of("__ERROR__");
    if matches_at(&v, &mark, 0) {
        return Err(
            "Connection refused: vLLM server not reachable at localhost:8000".to_owned(),
        );
    }
    let a = chars_of("A");
    if text::same(&v, &a) {
        return Ok(MOCK_ONE_LINE.to_owned());
    }
    let bytes: usize = input.as_bytes().len();
    if bytes < MOCK_HEAD_BYTES {
        let mut r = chars_of("[mock] Translated: ");
        extend(&mut r, &v);
        return Ok(string_of(&r));
    }
    let head = head_of(&v, MOCK_HEAD_BYTES);
    let mut r = chars_of("[mock] Translated output for: ");
    extend(&mut r, &head);
    push_text(&mut r, "...");
    let ghost start = r@;
    let mut i: u64 = 1;
    assert(r@ =~= start + filling(0));
    while i <= MOCK_LINES
        invariant
            1 <= i <= MOCK_LINES + 1,
            r@ == start + filling(i - 1),
        decreases MOCK_LINES + 1 - i,
    {
        push_text(&mut r, "\nLine ");
        let n = dec_of(i as u128);
        extend(&mut r, &n);
        push_text(
            &mut r,
            ": This is a mock translation line to test scroll behavior and viewport sizing.",
        );
        assert(r@ =~= start + filling(i as int));
        i += 1;
    }
    assert(r@ =~= long_answer(head@));
    Ok(string_of(&r))
}

} // verus!
