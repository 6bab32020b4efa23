//! Unicode whitespace and the leading-whitespace structure of a line.

use vstd::prelude::*;

verus! {

/// The characters that carry the Unicode property `White_Space`.
pub open spec fn is_white_space(c: char) -> bool {
    ||| '\u{9}' <= c <= '\u{D}'
    ||| c == ' '
    ||| c == '\u{85}'
    ||| c == '\u{A0}'
    ||| c == '\u{1680}'
    ||| '\u{2000}' <= c <= '\u{200A}'
    ||| c == '\u{2028}'
    ||| c == '\u{2029}'
    ||| c == '\u{202F}'
    ||| c == '\u{205F}'
    ||| c == '\u{3000}'
}

/// `char::is_whitespace` answers whether the character has the Unicode
/// property `White_Space`. Trusted: the verifier does not read the standard
/// library's table.
pub assume_specification[ char::is_whitespace ](c: char) -> (b: bool)
    ensures
        b == is_white_space(c),
;

/// The number of whitespace characters at the start of `s`.
pub open spec fn leading_whitespace(s: Seq<char>) -> nat
    decreases s.len(),
{
    if s.len() > 0 && is_white_space(s[0]) {
        1 + leading_whitespace(s.drop_first())
    } else {
        0
    }
}

/// `s` without its leading whitespace.
pub open spec fn trimmed_start(s: Seq<char>) -> Seq<char> {
    s.skip(leading_whitespace(s) as int)
}

/// `str::trim_start` returns the rest of the string once its leading
/// whitespace, in the sense of `White_Space`, is removed. Trusted.
pub assume_specification[ str::trim_start ](s: &str) -> (r: &str)
    ensures
        r@ == trimmed_start(s@),
;

/// Whether a line is indented too far to open a block: its leading whitespace
/// holds a tab, or runs to four characters or more.
pub open spec fn over_indented(line: Seq<char>) -> bool {
    let width = leading_whitespace(line);
    width >= 4 || line.take(width as int).contains('\t')
}

/// `k` is the length of the leading whitespace of `s`: everything before
/// position `k` is whitespace, and position `k` is not, or is the end.
pub open spec fn whitespace_ends_at(s: Seq<char>, k: int) -> bool {
    &&& 0 <= k <= s.len()
    &&& forall|i: int| 0 <= i < k ==> is_white_space(#[trigger] s[i])
    &&& k < s.len() ==> !is_white_space(s[k])
}

/// The leading whitespace never runs past the end of the string.
pub proof fn lemma_leading_whitespace_bound(s: Seq<char>)
    ensures
        leading_whitespace(s) <= s.len(),
    decreases s.len(),
{
    if s.len() > 0 && is_white_space(s[0]) {
        lemma_leading_whitespace_bound(s.drop_first());
    }
}

/// `leading_whitespace` is the one position at which the whitespace ends.
pub proof fn lemma_leading_whitespace_unique(s: Seq<char>, k: int)
    ensures
        whitespace_ends_at(s, k) <==> k == leading_whitespace(s),
    decreases s.len(),
{
    if s.len() > 0 && is_white_space(s[0]) {
        let rest = s.drop_first();
        lemma_leading_whitespace_unique(rest, k - 1);
        if whitespace_ends_at(s, k) {
            assert(k >= 1) by {
                if k == 0 {
                    assert(!is_white_space(s[0]));
                }
            }
            assert forall|i: int| 0 <= i < k - 1 implies is_white_space(#[trigger] rest[i]) by {
                assert(rest[i] == s[i + 1]);
            }
            assert(k - 1 < rest.len() ==> rest[k - 1] == s[k]);
            assert(whitespace_ends_at(rest, k - 1));
        }
        if k == leading_whitespace(s) {
            assert(whitespace_ends_at(rest, k - 1));
            assert forall|i: int| 0 <= i < k implies is_white_space(#[trigger] s[i]) by {
                if i > 0 {
                    assert(rest[i - 1] == s[i]);
                }
            }
            assert(k < s.len() ==> rest[k - 1] == s[k]);
        }
    } else {
        if whitespace_ends_at(s, k) && k > 0 {
            assert(is_white_space(s[0]));
        }
    }
}

/// Where the first `k` characters are whitespace, the leading whitespace is
/// at least `k` long.
pub proof fn lemma_leading_whitespace_at_least(s: Seq<char>, k: int)
    requires
        0 <= k <= s.len(),
        forall|i: int| 0 <= i < k ==> is_white_space(#[trigger] s[i]),
    ensures
        leading_whitespace(s) >= k,
    decreases s.len(),
{
    if k > 0 {
        assert(is_white_space(s[0]));
        let rest = s.drop_first();
        assert forall|i: int| 0 <= i < k - 1 implies is_white_space(#[trigger] rest[i]) by {
            assert(rest[i] == s[i + 1]);
        }
        lemma_leading_whitespace_at_least(rest, k - 1);
    }
}

/// A tab that only whitespace precedes lies in the leading whitespace.
pub proof fn lemma_tab_in_leading_whitespace(s: Seq<char>, k: int)
    requires
        0 <= k < s.len(),
        s[k] == '\t',
        forall|i: int| 0 <= i < k ==> is_white_space(#[trigger] s[i]),
    ensures
        over_indented(s),
{
    lemma_leading_whitespace_at_least(s, k + 1);
    lemma_leading_whitespace_bound(s);
    let width = leading_whitespace(s) as int;
    assert(s.take(width)[k] == '\t');
}

/// A line made of whitespace `indent` and then `content` that does not
/// start with whitespace: the leading whitespace is `indent`, what remains
/// after trimming is `content`, and the line is over-indented exactly when
/// `indent` holds a tab or four characters.
pub proof fn lemma_indent_then_content(indent: Seq<char>, content: Seq<char>)
    requires
        forall|i: int| 0 <= i < indent.len() ==> is_white_space(#[trigger] indent[i]),
        content.len() > 0 ==> !is_white_space(content[0]),
    ensures
        leading_whitespace(indent + content) == indent.len(),
        trimmed_start(indent + content) == content,
        over_indented(indent + content) == (indent.len() >= 4 || indent.contains('\t')),
{
    let line = indent + content;
    let k = indent.len() as int;
    assert forall|i: int| 0 <= i < k implies is_white_space(#[trigger] line[i]) by {
        assert(line[i] == indent[i]);
    }
    assert(k < line.len() ==> line[k] == content[0]);
    lemma_leading_whitespace_unique(line, k);
    assert(line.skip(k) == content);
    assert(line.take(k) == indent);
}

} // verus!
