use vstd::prelude::*;

verus! {

/// What `char::to_uppercase` yields for `c`, collected into a string.
pub uninterp spec fn upper_of(c: char) -> Seq<char>;

/// Relies on `char::to_uppercase`: the uppercase mapping of a character depends on
/// the character alone.
#[verifier::external_body]
fn char_to_upper(c: char) -> (r: String)
    ensures
        r@ == upper_of(c),
{
    c.to_uppercase().collect::<String>()
}

/// Relies on `String::push`: appends one character at the end.
#[verifier::external_body]
pub(crate) fn push_char(s: &mut String, c: char)
    ensures
        final(s)@ == old(s)@.push(c),
{
    s.push(c)
}

/// What the character at position `i` of `s` contributes to the PascalCase form:
/// an underscore separates words and is dropped; the first character of a word
/// (at the start, or right after an underscore) is replaced by its uppercase
/// form; any other character is kept as it is.
pub open spec fn pascal_piece(s: Seq<char>, i: int) -> Seq<char> {
    if s[i] == '_' {
        Seq::empty()
    } else if i == 0 || s[i - 1] == '_' {
        upper_of(s[i])
    } else {
        seq![s[i]]
    }
}

/// The PascalCase form of the first `n` characters of `s`.
pub open spec fn pascal_prefix(s: Seq<char>, n: nat) -> Seq<char>
    decreases n,
{
    if n == 0 {
        Seq::empty()
    } else {
        pascal_prefix(s, (n - 1) as nat) + pascal_piece(s, n - 1)
    }
}

/// The PascalCase form of a snake_case identifier: its words, split at each
/// underscore, each with its first character in uppercase, run together.
pub open spec fn pascal(s: Seq<char>) -> Seq<char> {
    pascal_prefix(s, s.len())
}

/// Converts a snake_case identifier to PascalCase (`add_numbers` becomes
/// `AddNumbers`).
pub fn pascal_case(s: &str) -> (r: String)
    ensures
        r@ == pascal(s@),
{
    let n = s.unicode_len();
    let mut out = String::new();
    let mut i: usize = 0;
    while i < n
        invariant
            n == s@.len(),
            i <= n,
            out@ == pascal_prefix(s@, i as nat),
        decreases n - i,
    {
        let c = s.get_char(i);
        if c == '_' {
            // an underscore only separates words
        } else if i == 0 || s.get_char(i - 1) == '_' {
            let up = char_to_upper(c);
            out.append(up.as_str());
        } else {
            push_char(&mut out, c);
        }
        assert(out@ =~= pascal_prefix(s@, (i + 1) as nat));
        i = i + 1;
    }
    out
}

} // verus!
