//! Mapping from a RIS type code to a BibTeX entry type: the code is
//! uppercased and looked up in a fixed table; anything unknown is `misc`.

use vstd::prelude::*;
use crate::chars::chars_of;
use crate::chars::string_of;
use crate::chars::str_eq;

verus! {

/// One character uppercased, over the ASCII letters.
pub open spec fn upper_char(c: char) -> char {
    let u = c as u32;
    if 97 <= u && u <= 122 {
        (u - 32) as char
    } else {
        c
    }
}

/// A text with each character uppercased.
pub open spec fn upper_text(s: Seq<char>) -> Seq<char> {
    s.map_values(|c: char| upper_char(c))
}

/// The BibTeX entry type for a RIS type code: the code is uppercased, then
/// looked up; codes outside the table give `misc`.
pub open spec fn bibtex_type_of(ris_ty: Seq<char>) -> Seq<char> {
    let u = upper_text(ris_ty);
    if u == "JOUR"@ {
        "article"@
    } else if u == "BOOK"@ {
        "book"@
    } else if u == "CHAP"@ {
        "incollection"@
    } else if u == "CONF"@ || u == "CPAPER"@ {
        "inproceedings"@
    } else if u == "THES"@ {
        "phdthesis"@
    } else if u == "RPRT"@ {
        "techreport"@
    } else {
        "misc"@
    }
}

/// Uppercases one character, over the ASCII letters.
pub fn to_upper(c: char) -> (r: char)
    ensures
        r == upper_char(c),
{
    let u = c as u32;
    if 97 <= u && u <= 122 {
        match c {
            'a' => 'A',
            'b' => 'B',
            'c' => 'C',
            'd' => 'D',
            'e' => 'E',
            'f' => 'F',
            'g' => 'G',
            'h' => 'H',
            'i' => 'I',
            'j' => 'J',
            'k' => 'K',
            'l' => 'L',
            'm' => 'M',
            'n' => 'N',
            'o' => 'O',
            'p' => 'P',
            'q' => 'Q',
            'r' => 'R',
            's' => 'S',
            't' => 'T',
            'u' => 'U',
            'v' => 'V',
            'w' => 'W',
            'x' => 'X',
            'y' => 'Y',
            _ => 'Z',
        }
    } else {
        c
    }
}

/// Uppercases a character vector.
pub fn upper_chars(v: &Vec<char>) -> (r: Vec<char>)
    ensures
        r@ == upper_text(v@),
{
    let mut r: Vec<char> = Vec::new();
    let mut i: usize = 0;
    while i < v.len()
        invariant
            i <= v@.len(),
            r@ == upper_text(v@.take(i as int)),
        decreases v@.len() - i,
    {
        r.push(to_upper(v[i]));
        proof {
            assert(r@ =~= upper_text(v@.take(i + 1)));
        }
        i += 1;
    }
    proof {
        assert(v@.take(v@.len() as int) =~= v@);
        assert(r@ =~= upper_text(v@));
    }
    r
}

/// The BibTeX entry type for a RIS type code.
pub fn guess_bibtex_type(ris_ty: &str) -> (r: &str)
    ensures
        r@ == bibtex_type_of(ris_ty@),
{
    let v = chars_of(ris_ty);
    let up = string_of(&upper_chars(&v));
    let u = up.as_str();
    if str_eq(u, "JOUR") {
        "article"
    } else if str_eq(u, "BOOK") {
        "book"
    } else if str_eq(u, "CHAP") {
        "incollection"
    } else if str_eq(u, "CONF") || str_eq(u, "CPAPER") {
        "inproceedings"
    } else if str_eq(u, "THES") {
        "phdthesis"
    } else if str_eq(u, "RPRT") {
        "techreport"
    } else {
        "misc"
    }
}

/// Law: the type mapping is case-insensitive — a code and its uppercased
/// form give the same BibTeX entry type.
pub proof fn lemma_bibtex_type_case_insensitive(ris_ty: Seq<char>)
    ensures
        bibtex_type_of(upper_text(ris_ty)) == bibtex_type_of(ris_ty),
{
    assert(upper_text(upper_text(ris_ty)) =~= upper_text(ris_ty));
}

/// Law: the type mapping only ever yields one of the seven BibTeX entry
/// types of the table.
pub proof fn lemma_bibtex_type_in_table(ris_ty: Seq<char>)
    ensures
        bibtex_type_of(ris_ty) == "article"@ || bibtex_type_of(ris_ty) == "book"@
            || bibtex_type_of(ris_ty) == "incollection"@ || bibtex_type_of(ris_ty)
            == "inproceedings"@ || bibtex_type_of(ris_ty) == "phdthesis"@ || bibtex_type_of(ris_ty)
            == "techreport"@ || bibtex_type_of(ris_ty) == "misc"@,
{
}

} // verus!
