//! Filename sanitization: characters that are unsafe in file names are
//! replaced by underscores before a download destination is built.
use vstd::prelude::*;

verus! {

/// Holds of every character the sanitizer refuses in a file name.
pub open spec fn spec_is_forbidden(c: char) -> bool {
    c == '/' || c == '\\' || c == ':' || c == '*' || c == '?' || c == '"' || c == '<' || c == '>'
        || c == '|'
}

/// What one character of the name becomes.
pub open spec fn spec_sanitize_char(c: char) -> char {
    if spec_is_forbidden(c) {
        '_'
    } else {
        c
    }
}

/// What the whole sanitized name is: the same characters, with each
/// forbidden one replaced by an underscore.
pub open spec fn spec_sanitize(s: Seq<char>) -> Seq<char> {
    s.map_values(|c: char| spec_sanitize_char(c))
}

/// Recognizes the characters that `sanitize` replaces.
pub fn is_forbidden(c: char) -> (r: bool)
    ensures
        r == spec_is_forbidden(c),
{
    c == '/' || c == '\\' || c == ':' || c == '*' || c == '?' || c == '"' || c == '<' || c == '>'
        || c == '|'
}

/// Replaces each of `/ \ : * ? " < > |` in `name` with `_`, leaving every
/// other character (including `.`) as it is.
pub fn sanitize(name: &str) -> (r: String)
    ensures
        r@ == spec_sanitize(name@),
{
    let n = name.unicode_len();
    let mut out = String::new();
    let mut i: usize = 0;
    while i < n
        invariant
            i <= n,
            n == name@.len(),
            out@ == spec_sanitize(name@.subrange(0, i as int)),
        decreases n - i,
    {
        let c = name.get_char(i);
        if is_forbidden(c) {
            out.append("_");
            proof {
                reveal_strlit("_");
            }
        } else {
            let piece = name.substring_char(i, i + 1);
            out.append(piece);
        }
        proof {
            assert(out@ =~= spec_sanitize(name@.subrange(0, i + 1 as int)));
        }
        i = i + 1;
    }
    proof {
        assert(name@.subrange(0, n as int) =~= name@);
    }
    out
}

/// Law: sanitizing is idempotent — a name already sanitized is left
/// unchanged, because an underscore is not itself a forbidden character.
pub proof fn lemma_sanitize_idempotent(s: Seq<char>)
    ensures
        spec_sanitize(spec_sanitize(s)) == spec_sanitize(s),
{
    assert(spec_sanitize(spec_sanitize(s)) =~= spec_sanitize(s));
}

} // verus!
