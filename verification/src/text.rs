//! Character-level building blocks of the assembly syntax.

use vstd::prelude::*;
#[allow(unused_imports)]
use vstd::std_specs::iter::IteratorSpec;

verus! {

/// The white-space characters: the code points that carry the Unicode
/// property `White_Space`.
pub open spec fn is_whitespace(c: char) -> bool {
    let n = c as u32;
    ||| 0x09 <= n <= 0x0D
    ||| n == 0x20
    ||| n == 0x85
    ||| n == 0xA0
    ||| n == 0x1680
    ||| 0x2000 <= n <= 0x200A
    ||| n == 0x2028
    ||| n == 0x2029
    ||| n == 0x202F
    ||| n == 0x205F
    ||| n == 0x3000
}

/// Decides whether `c` is a white-space character.
pub fn whitespace(c: char) -> (b: bool)
    ensures
        b == is_whitespace(c),
{
    let n: u32 = c as u32;
    (0x09 <= n && n <= 0x0D) || n == 0x20 || n == 0x85 || n == 0xA0 || n == 0x1680 || (0x2000 <= n
        && n <= 0x200A) || n == 0x2028 || n == 0x2029 || n == 0x202F || n == 0x205F || n == 0x3000
}

/// Length of the run of white-space characters that `text` starts with.
pub open spec fn whitespace_run(text: Seq<char>) -> nat
    decreases text.len(),
{
    if text.len() > 0 && is_whitespace(text[0]) {
        1 + whitespace_run(text.drop_first())
    } else {
        0
    }
}

/// Length of the run of characters other than white space that `text`
/// starts with.
pub open spec fn token_run(text: Seq<char>) -> nat
    decreases text.len(),
{
    if text.len() > 0 && !is_whitespace(text[0]) {
        1 + token_run(text.drop_first())
    } else {
        0
    }
}

/// `text` without the white space it starts with.
pub open spec fn trimmed(text: Seq<char>) -> Seq<char> {
    text.skip(whitespace_run(text) as int)
}

/// The white-space run at the start of `text` ends at `k` when the first `k`
/// characters are white space and the one at `k`, if there is one, is not.
pub proof fn lemma_whitespace_run_ends(text: Seq<char>, k: int)
    requires
        0 <= k <= text.len(),
        forall|i: int| 0 <= i < k ==> is_whitespace(#[trigger] text[i]),
        k < text.len() ==> !is_whitespace(text[k]),
    ensures
        whitespace_run(text) == k,
    decreases k,
{
    if k > 0 {
        let rest = text.drop_first();
        assert forall|i: int| 0 <= i < k - 1 implies is_whitespace(#[trigger] rest[i]) by {
            assert(rest[i] == text[i + 1]);
        }
        lemma_whitespace_run_ends(rest, k - 1);
    }
}

/// The run of other characters at the start of `text` ends at `k` when none of
/// the first `k` characters is white space and the one at `k`, if there is
/// one, is.
pub proof fn lemma_token_run_ends(text: Seq<char>, k: int)
    requires
        0 <= k <= text.len(),
        forall|i: int| 0 <= i < k ==> !is_whitespace(#[trigger] text[i]),
        k < text.len() ==> is_whitespace(text[k]),
    ensures
        token_run(text) == k,
    decreases k,
{
    if k > 0 {
        let rest = text.drop_first();
        assert forall|i: int| 0 <= i < k - 1 implies !is_whitespace(#[trigger] rest[i]) by {
            assert(rest[i] == text[i + 1]);
        }
        lemma_token_run_ends(rest, k - 1);
    }
}

/// The characters of `text`, in order.
pub fn chars_of(text: &str) -> (chars: Vec<char>)
    ensures
        chars@ == text@,
{
    broadcast use vstd::string::group_string_axioms;

    let mut rest = text.chars();
    let mut chars: Vec<char> = Vec::new();
    loop
        invariant
            chars@ + rest.remaining() == text@,
            rest.decrease() is Some,
        ensures
            chars@ == text@,
        decreases rest.decrease()->0,
    {
        match rest.next() {
            Some(c) => {
                chars.push(c);
            },
            None => {
                break ;
            },
        }
    }
    chars
}

/// Index of the first character at or after `start` that is not white space,
/// or the length of `chars` if there is none.
pub(crate) fn skip_whitespace(chars: &Vec<char>, start: usize) -> (end: usize)
    requires
        start <= chars.len(),
    ensures
        end == start + whitespace_run(chars@.skip(start as int)),
        end <= chars.len(),
{
    let mut end: usize = start;
    while end < chars.len() && whitespace(chars[end])
        invariant
            start <= end <= chars.len(),
            forall|i: int| start <= i < end ==> is_whitespace(#[trigger] chars@[i]),
        decreases chars.len() - end,
    {
        end += 1;
    }
    proof {
        lemma_whitespace_run_ends(chars@.skip(start as int), end - start);
    }
    end
}

/// Index of the first white-space character at or after `start`, or the
/// length of `chars` if there is none.
pub(crate) fn skip_token(chars: &Vec<char>, start: usize) -> (end: usize)
    requires
        start <= chars.len(),
    ensures
        end == start + token_run(chars@.skip(start as int)),
        end <= chars.len(),
{
    let mut end: usize = start;
    while end < chars.len() && !whitespace(chars[end])
        invariant
            start <= end <= chars.len(),
            forall|i: int| start <= i < end ==> !is_whitespace(#[trigger] chars@[i]),
        decreases chars.len() - end,
    {
        end += 1;
    }
    proof {
        lemma_token_run_ends(chars@.skip(start as int), end - start);
    }
    end
}

/// `line` without the white space it starts with.
pub fn trim_start(line: &str) -> (rest: &str)
    ensures
        rest@ == trimmed(line@),
{
    let chars = chars_of(line);
    let start = skip_whitespace(&chars, 0);
    assert(chars@.skip(0) == chars@);
    assert(line@.subrange(start as int, chars.len() as int) == line@.skip(start as int));
    line.substring_char(start, chars.len())
}

/// The upper-case form of a text: what `str::to_uppercase` makes of it, by
/// the Unicode case mappings. A character may become several.
pub uninterp spec fn uppercase_of(text: Seq<char>) -> Seq<char>;

/// `str::to_uppercase`: the upper-case form of `text` as a new `String`.
/// Nothing but the name of the result is claimed of it.
#[verifier::external_body]
fn to_uppercase(text: &str) -> (upper: String)
    ensures
        upper@ == uppercase_of(text@),
{
    text.to_uppercase()
}

/// The normal form of a source line: leading white space removed, then
/// upper case.
pub open spec fn normalized(line: Seq<char>) -> Seq<char> {
    uppercase_of(trimmed(line))
}

/// Brings a source line into its normal form.
pub fn normalize(line: &str) -> (text: String)
    ensures
        text@ == normalized(line@),
{
    to_uppercase(trim_start(line))
}

} // verus!
