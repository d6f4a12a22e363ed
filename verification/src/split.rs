//! Splitting text on a separator: the record splitter cuts the document at
//! every occurrence of the RIS end-of-record marker, and the field parser
//! cuts a record block into lines the same way.

use vstd::prelude::*;
use crate::chars::chars_of;
use crate::chars::string_of;

verus! {

/// The RIS end-of-record marker: a newline followed by `ER  -`.
pub open spec fn record_marker() -> Seq<char> {
    seq!['\n', 'E', 'R', ' ', ' ', '-']
}

/// The first position at or after `from` where `sep` occurs in `s`.
pub open spec fn find_sep(s: Seq<char>, sep: Seq<char>, from: nat) -> Option<nat>
    decreases s.len() - from,
        when sep.len() > 0
{
    if from + sep.len() > s.len() {
        None
    } else if s.subrange(from as int, (from + sep.len()) as int) == sep {
        Some(from)
    } else {
        find_sep(s, sep, (from + 1) as nat)
    }
}

/// What a found position means: it carries a match, lies at or after
/// `from`, and no earlier position at or after `from` carries one.
pub proof fn lemma_find_sep_some(s: Seq<char>, sep: Seq<char>, from: nat, i: nat)
    requires
        sep.len() > 0,
        find_sep(s, sep, from) == Some(i),
    ensures
        from <= i,
        i + sep.len() <= s.len(),
        s.subrange(i as int, (i + sep.len()) as int) == sep,
        forall|j: nat|
            from <= j < i ==> #[trigger] s.subrange(j as int, (j + sep.len()) as int) != sep,
    decreases s.len() - from,
{
    if from + sep.len() > s.len() {
    } else if s.subrange(from as int, (from + sep.len()) as int) == sep {
    } else {
        lemma_find_sep_some(s, sep, (from + 1) as nat, i);
    }
}

/// The pieces of `s` between the occurrences of `sep`, in order; the text
/// after the last occurrence is the final piece.
pub open spec fn split_text(s: Seq<char>, sep: Seq<char>) -> Seq<Seq<char>>
    decreases s.len(),
        when sep.len() > 0
        via split_text_decreases
{
    match find_sep(s, sep, 0) {
        None => seq![s],
        Some(i) => seq![s.subrange(0, i as int)] + split_text(
            s.subrange((i + sep.len()) as int, s.len() as int),
            sep,
        ),
    }
}

#[via_fn]
proof fn split_text_decreases(s: Seq<char>, sep: Seq<char>) {
    match find_sep(s, sep, 0) {
        Some(i) => lemma_find_sep_some(s, sep, 0, i),
        None => {},
    }
}

/// Law: a text without any occurrence of the separator splits into a
/// single piece, the text itself.
pub proof fn lemma_split_no_sep(s: Seq<char>, sep: Seq<char>)
    requires
        sep.len() > 0,
        forall|j: nat|
            j + sep.len() <= s.len() ==> #[trigger] s.subrange(j as int, (j + sep.len()) as int)
                != sep,
    ensures
        split_text(s, sep) == seq![s],
{
    match find_sep(s, sep, 0) {
        Some(i) => {
            lemma_find_sep_some(s, sep, 0, i);
        },
        None => {},
    }
}

/// Whether `sep` occurs in `v` starting at position `j`.
fn match_at(v: &Vec<char>, sep: &Vec<char>, j: usize) -> (r: bool)
    requires
        j + sep@.len() <= v@.len(),
    ensures
        r == (v@.subrange(j as int, j + sep@.len()) == sep@),
{
    let n = v.len();
    let mut k: usize = 0;
    while k < sep.len()
        invariant
            k <= sep@.len(),
            n == v@.len(),
            j + sep@.len() <= v@.len(),
            forall|t: int| 0 <= t < k ==> v@[j + t] == sep@[t],
        decreases sep@.len() - k,
    {
        if v[j + k] != sep[k] {
            proof {
                assert(v@.subrange(j as int, j + sep@.len())[k as int] != sep@[k as int]);
            }
            return false;
        }
        k += 1;
    }
    proof {
        assert(v@.subrange(j as int, j + sep@.len()) =~= sep@);
    }
    true
}

/// The first position at or after `from` where `sep` occurs in `v`.
pub(crate) fn find_sep_at(v: &Vec<char>, sep: &Vec<char>, from: usize) -> (r: Option<usize>)
    requires
        sep@.len() > 0,
    ensures
        match r {
            Some(i) => find_sep(v@, sep@, from as nat) == Some(i as nat),
            None => find_sep(v@, sep@, from as nat) is None,
        },
{
    let mut j = from;
    while sep.len() <= v.len() && j <= v.len() - sep.len()
        invariant
            sep@.len() > 0,
            from <= j,
            find_sep(v@, sep@, from as nat) == find_sep(v@, sep@, j as nat),
        decreases v@.len() + 1 - j,
    {
        if match_at(v, sep, j) {
            return Some(j);
        }
        j += 1;
    }
    proof {
        assert(j as nat + sep@.len() > v@.len());
    }
    None
}

/// The piece of `v` from `a` to `b`.
pub fn subvec(v: &Vec<char>, a: usize, b: usize) -> (r: Vec<char>)
    requires
        a <= b <= v@.len(),
    ensures
        r@ == v@.subrange(a as int, b as int),
{
    let mut r: Vec<char> = Vec::new();
    let mut i = a;
    proof {
        assert(Seq::<char>::empty() =~= v@.subrange(a as int, a as int));
    }
    while i < b
        invariant
            a <= i <= b <= v@.len(),
            r@ == v@.subrange(a as int, i as int),
        decreases b - i,
    {
        r.push(v[i]);
        proof {
            assert(r@ =~= v@.subrange(a as int, i + 1));
        }
        i += 1;
    }
    r
}

/// Splits a character vector at every occurrence of `sep`.
pub fn split_chars(v: &Vec<char>, sep: &Vec<char>) -> (blocks: Vec<Vec<char>>)
    requires
        sep@.len() > 0,
    ensures
        blocks.deep_view() == split_text(v@, sep@),
{
    let mut blocks: Vec<Vec<char>> = Vec::new();
    let mut rest = subvec(v, 0, v.len());
    proof {
        assert(rest@ =~= v@);
    }
    let mut done = false;
    while !done
        invariant
            sep@.len() > 0,
            split_text(v@, sep@) == blocks.deep_view() + (if done {
                Seq::<Seq<char>>::empty()
            } else {
                split_text(rest@, sep@)
            }),
        decreases rest@.len() + (if done {
            0int
        } else {
            1int
        }),
    {
        let ghost prev_deep = blocks.deep_view();
        let ghost prev_rest = rest@;
        match find_sep_at(&rest, sep, 0) {
            Some(i) => {
                proof {
                    lemma_find_sep_some(rest@, sep@, 0, i as nat);
                }
                let rl = rest.len();
                let block = subvec(&rest, 0, i);
                let tail = subvec(&rest, i + sep.len(), rl);
                blocks.push(block);
                rest = tail;
                proof {
                    assert(blocks.deep_view() =~~= prev_deep.push(prev_rest.subrange(0, i as int)));
                    assert(split_text(prev_rest, sep@) == seq![
                        prev_rest.subrange(0, i as int),
                    ] + split_text(rest@, sep@));
                    assert(blocks.deep_view() + split_text(rest@, sep@) =~~= prev_deep
                        + split_text(prev_rest, sep@));
                }
            },
            None => {
                blocks.push(rest);
                rest = Vec::new();
                done = true;
                proof {
                    assert(split_text(prev_rest, sep@) =~= seq![prev_rest]);
                    assert(blocks.deep_view() =~~= prev_deep.push(prev_rest));
                    assert(blocks.deep_view() =~~= prev_deep + split_text(prev_rest, sep@));
                    assert(blocks.deep_view() + Seq::<Seq<char>>::empty() =~= blocks.deep_view());
                }
            },
        }
    }
    proof {
        assert(blocks.deep_view() + Seq::<Seq<char>>::empty() =~= blocks.deep_view());
    }
    blocks
}

/// Splits a document into its record blocks at every occurrence of the RIS
/// end-of-record marker.
pub fn split_records(document: &str) -> (blocks: Vec<String>)
    ensures
        blocks.deep_view() == split_text(document@, record_marker()),
{
    let v = chars_of(document);
    let sep: Vec<char> = vec!['\n', 'E', 'R', ' ', ' ', '-'];
    proof {
        assert(sep@ =~= record_marker());
    }
    let parts = split_chars(&v, &sep);
    let mut blocks: Vec<String> = Vec::new();
    let mut i: usize = 0;
    while i < parts.len()
        invariant
            i <= parts@.len(),
            parts.deep_view() == split_text(document@, record_marker()),
            parts.deep_view().len() == parts@.len(),
            blocks.deep_view() == parts.deep_view().take(i as int),
        decreases parts@.len() - i,
    {
        let ghost prev_deep = blocks.deep_view();
        let b = string_of(&parts[i]);
        proof {
            assert(b@ =~= parts@[i as int].deep_view());
        }
        blocks.push(b);
        proof {
            assert(blocks.deep_view() =~~= prev_deep.push(parts.deep_view()[i as int]));
            assert(blocks.deep_view() =~~= parts.deep_view().take(i + 1));
        }
        i += 1;
    }
    proof {
        assert(parts.deep_view().take(parts@.len() as int) =~= parts.deep_view());
    }
    blocks
}

} // verus!
