//! LaTeX escaping: every metacharacter of a fixed set is replaced by its
//! escape sequence, all other characters pass through unchanged.

use vstd::prelude::*;
use crate::chars::chars_of;
use crate::chars::string_of;

verus! {

/// The LaTeX metacharacters that `latex_escape` protects.
pub open spec fn is_latex_special(c: char) -> bool {
    c == '{' || c == '}' || c == '&' || c == '%' || c == '_' || c == '$' || c == '#' || c == '^'
        || c == '~'
}

/// The escape sequence emitted for one character: `\{`, `\}`, `\&`, `\%`,
/// `\_`, `\$`, `\#`, `\^{}`, `\~{}`, and the character itself otherwise.
pub open spec fn escape_char(c: char) -> Seq<char> {
    if c == '{' {
        seq!['\\', '{']
    } else if c == '}' {
        seq!['\\', '}']
    } else if c == '&' {
        seq!['\\', '&']
    } else if c == '%' {
        seq!['\\', '%']
    } else if c == '_' {
        seq!['\\', '_']
    } else if c == '$' {
        seq!['\\', '$']
    } else if c == '#' {
        seq!['\\', '#']
    } else if c == '^' {
        seq!['\\', '^', '{', '}']
    } else if c == '~' {
        seq!['\\', '~', '{', '}']
    } else {
        seq![c]
    }
}

/// The text with every LaTeX metacharacter escaped, character by character.
pub open spec fn escape_text(s: Seq<char>) -> Seq<char>
    decreases s.len(),
{
    if s.len() == 0 {
        Seq::empty()
    } else {
        escape_text(s.drop_last()) + escape_char(s.last())
    }
}

/// Escapes the LaTeX metacharacters of a string.
pub fn latex_escape(s: &str) -> (r: String)
    ensures
        r@ == escape_text(s@),
{
    let v = chars_of(s);
    let mut out: Vec<char> = Vec::new();
    let mut i: usize = 0;
    while i < v.len()
        invariant
            i <= v@.len(),
            v@ == s@,
            out@ == escape_text(s@.take(i as int)),
        decreases v@.len() - i,
    {
        let c = v[i];
        if c == '{' {
            out.push('\\');
            out.push('{');
        } else if c == '}' {
            out.push('\\');
            out.push('}');
        } else if c == '&' {
            out.push('\\');
            out.push('&');
        } else if c == '%' {
            out.push('\\');
            out.push('%');
        } else if c == '_' {
            out.push('\\');
            out.push('_');
        } else if c == '$' {
            out.push('\\');
            out.push('$');
        } else if c == '#' {
            out.push('\\');
            out.push('#');
        } else if c == '^' {
            out.push('\\');
            out.push('^');
            out.push('{');
            out.push('}');
        } else if c == '~' {
            out.push('\\');
            out.push('~');
            out.push('{');
            out.push('}');
        } else {
            out.push(c);
        }
        proof {
            assert(s@.take(i + 1).drop_last() =~= s@.take(i as int));
            assert(s@.take(i + 1).last() == c);
            assert(out@ =~= escape_text(s@.take(i as int)) + escape_char(c));
        }
        i += 1;
    }
    proof {
        assert(s@.take(v@.len() as int) =~= s@);
    }
    string_of(&out)
}

/// Whether position `i` of `s` sits inside an escape sequence: directly
/// after a backslash, or one of the braces of a `\^{}` or `\~{}` group.
pub open spec fn escaped_at(s: Seq<char>, i: int) -> bool {
    i >= 1 && (s[i - 1] == '\\' || (s[i] == '{' && (s[i - 1] == '^' || s[i - 1] == '~') && i >= 2
        && s[i - 2] == '\\') || (s[i] == '}' && s[i - 1] == '{' && i >= 3 && (s[i - 2] == '^' || s[i
        - 2] == '~') && s[i - 3] == '\\'))
}

/// Whether every LaTeX metacharacter of `s` sits inside an escape sequence.
pub open spec fn no_unescaped_specials(s: Seq<char>) -> bool {
    forall|i: int| 0 <= i < s.len() && is_latex_special(#[trigger] s[i]) ==> escaped_at(s, i)
}

/// Law: for all input text, escaping leaves no unescaped LaTeX
/// metacharacter in the output.
pub proof fn lemma_escape_no_unescaped(s: Seq<char>)
    ensures
        no_unescaped_specials(escape_text(s)),
    decreases s.len(),
{
    if s.len() == 0 {
    } else {
        lemma_escape_no_unescaped(s.drop_last());
        let t = escape_text(s.drop_last());
        let ch = escape_char(s.last());
        let e = escape_text(s);
        assert(e == t + ch);
        assert forall|i: int| 0 <= i < e.len() && is_latex_special(#[trigger] e[i]) implies escaped_at(
            e,
            i,
        ) by {
            if i < t.len() {
                assert(is_latex_special(t[i]));
                assert(escaped_at(t, i));
            } else {
                let c = s.last();
                assert(e[i] == ch[i - t.len()]);
                if is_latex_special(c) {
                    assert(ch[0] == '\\');
                    assert(i - t.len() >= 1);
                } else {
                    assert(ch =~= seq![c]);
                    assert(!is_latex_special(e[i]));
                }
            }
        }
    }
}

/// Whether some character of `s` is a LaTeX metacharacter.
pub open spec fn has_special(s: Seq<char>) -> bool {
    exists|i: int| 0 <= i < s.len() && is_latex_special(#[trigger] s[i])
}

/// Escaping never shortens a text, and strictly lengthens one holding a
/// LaTeX metacharacter.
pub proof fn lemma_escape_len(s: Seq<char>)
    ensures
        escape_text(s).len() >= s.len(),
        has_special(s) ==> escape_text(s).len() > s.len(),
    decreases s.len(),
{
    if s.len() == 0 {
    } else {
        lemma_escape_len(s.drop_last());
        if has_special(s) {
            let i = choose|i: int| 0 <= i < s.len() && is_latex_special(#[trigger] s[i]);
            if i < s.len() - 1 {
                assert(s.drop_last()[i] == s[i]);
                assert(has_special(s.drop_last()));
            } else {
                assert(escape_char(s.last()).len() >= 2);
            }
        }
    }
}

/// A text without LaTeX metacharacters passes through escaping unchanged.
pub proof fn lemma_escape_no_special_id(s: Seq<char>)
    requires
        !has_special(s),
    ensures
        escape_text(s) == s,
    decreases s.len(),
{
    if s.len() == 0 {
        assert(escape_text(s) =~= s);
    } else {
        assert(!has_special(s.drop_last())) by {
            if has_special(s.drop_last()) {
                let i = choose|i: int|
                    0 <= i < s.len() - 1 && is_latex_special(#[trigger] s.drop_last()[i]);
                assert(is_latex_special(s[i]));
            }
        }
        lemma_escape_no_special_id(s.drop_last());
        assert(!is_latex_special(s.last())) by {
            assert(s[s.len() - 1] == s.last());
        }
        assert(escape_text(s) =~= s);
    }
}

/// The escape of a text holding a LaTeX metacharacter holds one as well.
pub proof fn lemma_escape_keeps_special(s: Seq<char>)
    requires
        has_special(s),
    ensures
        has_special(escape_text(s)),
    decreases s.len(),
{
    let t = escape_text(s.drop_last());
    let ch = escape_char(s.last());
    let i = choose|i: int| 0 <= i < s.len() && is_latex_special(#[trigger] s[i]);
    if i < s.len() - 1 {
        assert(s.drop_last()[i] == s[i]);
        assert(has_special(s.drop_last()));
        lemma_escape_keeps_special(s.drop_last());
        let j = choose|j: int| 0 <= j < t.len() && is_latex_special(#[trigger] t[j]);
        assert(escape_text(s)[j] == t[j]);
    } else {
        let c = s.last();
        assert(ch[1] == c || (c == '^' && ch[1] == '^') || (c == '~' && ch[1] == '~'));
        assert(escape_text(s)[t.len() as int + 1] == ch[1]);
        assert(is_latex_special(escape_text(s)[t.len() as int + 1]));
    }
}

/// Law: escaping leaves a text unchanged exactly when the text holds no
/// LaTeX metacharacter.
pub proof fn lemma_escape_fixed_point_iff(s: Seq<char>)
    ensures
        escape_text(s) == s <==> !has_special(s),
{
    if has_special(s) {
        lemma_escape_len(s);
    } else {
        lemma_escape_no_special_id(s);
    }
}

/// Law: escaping is idempotent exactly on texts without LaTeX
/// metacharacters; re-escaping already escaped text changes it again.
pub proof fn lemma_escape_idempotent_iff(s: Seq<char>)
    ensures
        escape_text(escape_text(s)) == escape_text(s) <==> !has_special(s),
{
    if has_special(s) {
        lemma_escape_keeps_special(s);
        lemma_escape_len(escape_text(s));
    } else {
        lemma_escape_no_special_id(s);
    }
}

/// The text with every occurrence of the character `from` replaced by `to`.
pub open spec fn replace_char(s: Seq<char>, from: char, to: Seq<char>) -> Seq<char>
    decreases s.len(),
{
    if s.len() == 0 {
        Seq::empty()
    } else {
        replace_char(s.drop_last(), from, to) + (if s.last() == from {
            to
        } else {
            seq![s.last()]
        })
    }
}

/// The nine replacements of the escaper, applied one after another, each to
/// the result of the previous one.
pub open spec fn ordered_replaces(s: Seq<char>) -> Seq<char> {
    let s1 = replace_char(s, '{', seq!['\\', '{']);
    let s2 = replace_char(s1, '}', seq!['\\', '}']);
    let s3 = replace_char(s2, '&', seq!['\\', '&']);
    let s4 = replace_char(s3, '%', seq!['\\', '%']);
    let s5 = replace_char(s4, '_', seq!['\\', '_']);
    let s6 = replace_char(s5, '$', seq!['\\', '$']);
    let s7 = replace_char(s6, '#', seq!['\\', '#']);
    let s8 = replace_char(s7, '^', seq!['\\', '^', '{', '}']);
    replace_char(s8, '~', seq!['\\', '~', '{', '}'])
}

/// Replacement distributes over concatenation.
proof fn lemma_replace_concat(a: Seq<char>, b: Seq<char>, from: char, to: Seq<char>)
    ensures
        replace_char(a + b, from, to) == replace_char(a, from, to) + replace_char(b, from, to),
    decreases b.len(),
{
    if b.len() == 0 {
        assert(a + b =~= a);
        assert(replace_char(a, from, to) + replace_char(b, from, to) =~= replace_char(
            a,
            from,
            to,
        ));
    } else {
        lemma_replace_concat(a, b.drop_last(), from, to);
        assert((a + b).drop_last() =~= a + b.drop_last());
        assert((a + b).last() == b.last());
        assert(replace_char(a + b, from, to) =~= replace_char(a, from, to) + replace_char(
            b,
            from,
            to,
        ));
    }
}

/// Replacing in a one-character text.
proof fn lemma_replace_singleton(c: char, from: char, to: Seq<char>)
    ensures
        replace_char(seq![c], from, to) == (if c == from {
            to
        } else {
            seq![c]
        }),
{
    assert(seq![c].drop_last() =~= Seq::<char>::empty());
    assert(replace_char(seq![c].drop_last(), from, to) =~= Seq::<char>::empty());
    if c == from {
        assert(replace_char(seq![c], from, to) =~= to);
    } else {
        assert(replace_char(seq![c], from, to) =~= seq![c]);
    }
}

/// A text without the character passes through its replacement unchanged.
proof fn lemma_replace_no_occ(s: Seq<char>, from: char, to: Seq<char>)
    requires
        forall|i: int| 0 <= i < s.len() ==> s[i] != from,
    ensures
        replace_char(s, from, to) == s,
    decreases s.len(),
{
    if s.len() == 0 {
        assert(replace_char(s, from, to) =~= s);
    } else {
        assert(forall|i: int| 0 <= i < s.len() - 1 ==> s.drop_last()[i] != from);
        lemma_replace_no_occ(s.drop_last(), from, to);
        assert(s.last() != from);
        assert(replace_char(s, from, to) =~= s);
    }
}

/// The nine ordered replacements distribute over concatenation.
proof fn lemma_ordered_replaces_concat(a: Seq<char>, b: Seq<char>)
    ensures
        ordered_replaces(a + b) == ordered_replaces(a) + ordered_replaces(b),
{
    lemma_replace_concat(a, b, '{', seq!['\\', '{']);
    let a1 = replace_char(a, '{', seq!['\\', '{']);
    let b1 = replace_char(b, '{', seq!['\\', '{']);
    lemma_replace_concat(a1, b1, '}', seq!['\\', '}']);
    let a2 = replace_char(a1, '}', seq!['\\', '}']);
    let b2 = replace_char(b1, '}', seq!['\\', '}']);
    lemma_replace_concat(a2, b2, '&', seq!['\\', '&']);
    let a3 = replace_char(a2, '&', seq!['\\', '&']);
    let b3 = replace_char(b2, '&', seq!['\\', '&']);
    lemma_replace_concat(a3, b3, '%', seq!['\\', '%']);
    let a4 = replace_char(a3, '%', seq!['\\', '%']);
    let b4 = replace_char(b3, '%', seq!['\\', '%']);
    lemma_replace_concat(a4, b4, '_', seq!['\\', '_']);
    let a5 = replace_char(a4, '_', seq!['\\', '_']);
    let b5 = replace_char(b4, '_', seq!['\\', '_']);
    lemma_replace_concat(a5, b5, '$', seq!['\\', '$']);
    let a6 = replace_char(a5, '$', seq!['\\', '$']);
    let b6 = replace_char(b5, '$', seq!['\\', '$']);
    lemma_replace_concat(a6, b6, '#', seq!['\\', '#']);
    let a7 = replace_char(a6, '#', seq!['\\', '#']);
    let b7 = replace_char(b6, '#', seq!['\\', '#']);
    lemma_replace_concat(a7, b7, '^', seq!['\\', '^', '{', '}']);
    let a8 = replace_char(a7, '^', seq!['\\', '^', '{', '}']);
    let b8 = replace_char(b7, '^', seq!['\\', '^', '{', '}']);
    lemma_replace_concat(a8, b8, '~', seq!['\\', '~', '{', '}']);
}

/// The nine ordered replacements act on one character exactly as
/// `escape_char` says.
proof fn lemma_ordered_singleton(c: char)
    ensures
        ordered_replaces(seq![c]) == escape_char(c),
{
    if c == '{' {
        lemma_replace_singleton(c, '{', seq!['\\', '{']);
        lemma_replace_no_occ(seq!['\\', '{'], '}', seq!['\\', '}']);
        lemma_replace_no_occ(seq!['\\', '{'], '&', seq!['\\', '&']);
        lemma_replace_no_occ(seq!['\\', '{'], '%', seq!['\\', '%']);
        lemma_replace_no_occ(seq!['\\', '{'], '_', seq!['\\', '_']);
        lemma_replace_no_occ(seq!['\\', '{'], '$', seq!['\\', '$']);
        lemma_replace_no_occ(seq!['\\', '{'], '#', seq!['\\', '#']);
        lemma_replace_no_occ(seq!['\\', '{'], '^', seq!['\\', '^', '{', '}']);
        lemma_replace_no_occ(seq!['\\', '{'], '~', seq!['\\', '~', '{', '}']);
        assert(ordered_replaces(seq![c]) == escape_char(c));
    } else if c == '}' {
        lemma_replace_no_occ(seq![c], '{', seq!['\\', '{']);
        lemma_replace_singleton(c, '}', seq!['\\', '}']);
        lemma_replace_no_occ(seq!['\\', '}'], '&', seq!['\\', '&']);
        lemma_replace_no_occ(seq!['\\', '}'], '%', seq!['\\', '%']);
        lemma_replace_no_occ(seq!['\\', '}'], '_', seq!['\\', '_']);
        lemma_replace_no_occ(seq!['\\', '}'], '$', seq!['\\', '$']);
        lemma_replace_no_occ(seq!['\\', '}'], '#', seq!['\\', '#']);
        lemma_replace_no_occ(seq!['\\', '}'], '^', seq!['\\', '^', '{', '}']);
        lemma_replace_no_occ(seq!['\\', '}'], '~', seq!['\\', '~', '{', '}']);
        assert(ordered_replaces(seq![c]) == escape_char(c));
    } else if c == '&' {
        lemma_replace_no_occ(seq![c], '{', seq!['\\', '{']);
        lemma_replace_no_occ(seq![c], '}', seq!['\\', '}']);
        lemma_replace_singleton(c, '&', seq!['\\', '&']);
        lemma_replace_no_occ(seq!['\\', '&'], '%', seq!['\\', '%']);
        lemma_replace_no_occ(seq!['\\', '&'], '_', seq!['\\', '_']);
        lemma_replace_no_occ(seq!['\\', '&'], '$', seq!['\\', '$']);
        lemma_replace_no_occ(seq!['\\', '&'], '#', seq!['\\', '#']);
        lemma_replace_no_occ(seq!['\\', '&'], '^', seq!['\\', '^', '{', '}']);
        lemma_replace_no_occ(seq!['\\', '&'], '~', seq!['\\', '~', '{', '}']);
        assert(ordered_replaces(seq![c]) == escape_char(c));
    } else if c == '%' {
        lemma_replace_no_occ(seq![c], '{', seq!['\\', '{']);
        lemma_replace_no_occ(seq![c], '}', seq!['\\', '}']);
        lemma_replace_no_occ(seq![c], '&', seq!['\\', '&']);
        lemma_replace_singleton(c, '%', seq!['\\', '%']);
        lemma_replace_no_occ(seq!['\\', '%'], '_', seq!['\\', '_']);
        lemma_replace_no_occ(seq!['\\', '%'], '$', seq!['\\', '$']);
        lemma_replace_no_occ(seq!['\\', '%'], '#', seq!['\\', '#']);
        lemma_replace_no_occ(seq!['\\', '%'], '^', seq!['\\', '^', '{', '}']);
        lemma_replace_no_occ(seq!['\\', '%'], '~', seq!['\\', '~', '{', '}']);
        assert(ordered_replaces(seq![c]) == escape_char(c));
    } else if c == '_' {
        lemma_replace_no_occ(seq![c], '{', seq!['\\', '{']);
        lemma_replace_no_occ(seq![c], '}', seq!['\\', '}']);
        lemma_replace_no_occ(seq![c], '&', seq!['\\', '&']);
        lemma_replace_no_occ(seq![c], '%', seq!['\\', '%']);
        lemma_replace_singleton(c, '_', seq!['\\', '_']);
        lemma_replace_no_occ(seq!['\\', '_'], '$', seq!['\\', '$']);
        lemma_replace_no_occ(seq!['\\', '_'], '#', seq!['\\', '#']);
        lemma_replace_no_occ(seq!['\\', '_'], '^', seq!['\\', '^', '{', '}']);
        lemma_replace_no_occ(seq!['\\', '_'], '~', seq!['\\', '~', '{', '}']);
        assert(ordered_replaces(seq![c]) == escape_char(c));
    } else if c == '$' {
        lemma_replace_no_occ(seq![c], '{', seq!['\\', '{']);
        lemma_replace_no_occ(seq![c], '}', seq!['\\', '}']);
        lemma_replace_no_occ(seq![c], '&', seq!['\\', '&']);
        lemma_replace_no_occ(seq![c], '%', seq!['\\', '%']);
        lemma_replace_no_occ(seq![c], '_', seq!['\\', '_']);
        lemma_replace_singleton(c, '$', seq!['\\', '$']);
        lemma_replace_no_occ(seq!['\\', '$'], '#', seq!['\\', '#']);
        lemma_replace_no_occ(seq!['\\', '$'], '^', seq!['\\', '^', '{', '}']);
        lemma_replace_no_occ(seq!['\\', '$'], '~', seq!['\\', '~', '{', '}']);
        assert(ordered_replaces(seq![c]) == escape_char(c));
    } else if c == '#' {
        lemma_replace_no_occ(seq![c], '{', seq!['\\', '{']);
        lemma_replace_no_occ(seq![c], '}', seq!['\\', '}']);
        lemma_replace_no_occ(seq![c], '&', seq!['\\', '&']);
        lemma_replace_no_occ(seq![c], '%', seq!['\\', '%']);
        lemma_replace_no_occ(seq![c], '_', seq!['\\', '_']);
        lemma_replace_no_occ(seq![c], '$', seq!['\\', '$']);
        lemma_replace_singleton(c, '#', seq!['\\', '#']);
        lemma_replace_no_occ(seq!['\\', '#'], '^', seq!['\\', '^', '{', '}']);
        lemma_replace_no_occ(seq!['\\', '#'], '~', seq!['\\', '~', '{', '}']);
        assert(ordered_replaces(seq![c]) == escape_char(c));
    } else if c == '^' {
        lemma_replace_no_occ(seq![c], '{', seq!['\\', '{']);
        lemma_replace_no_occ(seq![c], '}', seq!['\\', '}']);
        lemma_replace_no_occ(seq![c], '&', seq!['\\', '&']);
        lemma_replace_no_occ(seq![c], '%', seq!['\\', '%']);
        lemma_replace_no_occ(seq![c], '_', seq!['\\', '_']);
        lemma_replace_no_occ(seq![c], '$', seq!['\\', '$']);
        lemma_replace_no_occ(seq![c], '#', seq!['\\', '#']);
        lemma_replace_singleton(c, '^', seq!['\\', '^', '{', '}']);
        lemma_replace_no_occ(seq!['\\', '^', '{', '}'], '~', seq!['\\', '~', '{', '}']);
        assert(ordered_replaces(seq![c]) == escape_char(c));
    } else if c == '~' {
        lemma_replace_no_occ(seq![c], '{', seq!['\\', '{']);
        lemma_replace_no_occ(seq![c], '}', seq!['\\', '}']);
        lemma_replace_no_occ(seq![c], '&', seq!['\\', '&']);
        lemma_replace_no_occ(seq![c], '%', seq!['\\', '%']);
        lemma_replace_no_occ(seq![c], '_', seq!['\\', '_']);
        lemma_replace_no_occ(seq![c], '$', seq!['\\', '$']);
        lemma_replace_no_occ(seq![c], '#', seq!['\\', '#']);
        lemma_replace_no_occ(seq![c], '^', seq!['\\', '^', '{', '}']);
        lemma_replace_singleton(c, '~', seq!['\\', '~', '{', '}']);
        assert(ordered_replaces(seq![c]) == escape_char(c));
    } else {
        lemma_replace_no_occ(seq![c], '{', seq!['\\', '{']);
        lemma_replace_no_occ(seq![c], '}', seq!['\\', '}']);
        lemma_replace_no_occ(seq![c], '&', seq!['\\', '&']);
        lemma_replace_no_occ(seq![c], '%', seq!['\\', '%']);
        lemma_replace_no_occ(seq![c], '_', seq!['\\', '_']);
        lemma_replace_no_occ(seq![c], '$', seq!['\\', '$']);
        lemma_replace_no_occ(seq![c], '#', seq!['\\', '#']);
        lemma_replace_no_occ(seq![c], '^', seq!['\\', '^', '{', '}']);
        lemma_replace_no_occ(seq![c], '~', seq!['\\', '~', '{', '}']);
        assert(ordered_replaces(seq![c]) == escape_char(c));
    }
}

/// Law: escaping character by character is the same as applying the nine
/// replacements in their stated order, each to the result of the previous
/// one.
pub proof fn lemma_escape_is_ordered_replaces(s: Seq<char>)
    ensures
        ordered_replaces(s) == escape_text(s),
    decreases s.len(),
{
    if s.len() == 0 {
        assert(ordered_replaces(s) =~= escape_text(s));
    } else {
        lemma_escape_is_ordered_replaces(s.drop_last());
        lemma_ordered_singleton(s.last());
        assert(s =~= s.drop_last() + seq![s.last()]);
        lemma_ordered_replaces_concat(s.drop_last(), seq![s.last()]);
        assert(ordered_replaces(s) == escape_text(s.drop_last()) + escape_char(s.last()));
    }
}

} // verus!
