//! Rendering one parsed record as a BibTeX entry: entry type, citation key
//! and a fixed ordered set of fields, each present even when empty.

use vstd::prelude::*;
use vstd::string::StringExecFns;
use crate::bibtype::bibtex_type_of;
use crate::bibtype::guess_bibtex_type;
use crate::chars::chars_of;
use crate::chars::string_of;
use crate::escape::escape_text;
use crate::escape::latex_escape;
use crate::fields::field_values;
use crate::fields::key_index;
use crate::fields::FieldMap;
use crate::split::find_sep;
use crate::split::find_sep_at;
use crate::split::lemma_find_sep_some;
use crate::split::subvec;

verus! {

/// The first value of `tag`, or the given default when the tag is absent.
pub open spec fn first_or(
    m: Seq<(Seq<char>, Seq<Seq<char>>)>,
    tag: Seq<char>,
    dflt: Seq<char>,
) -> Seq<char> {
    let vs = field_values(m, tag);
    if vs.len() > 0 {
        vs[0]
    } else {
        dflt
    }
}

/// The part of `s` before its first comma; empty when `s` has no comma.
pub open spec fn before_comma(s: Seq<char>) -> Seq<char> {
    match find_sep(s, seq![','], 0) {
        None => Seq::empty(),
        Some(i) => s.subrange(0, i as int),
    }
}

/// The surname part of the citation key: the first author's name up to its
/// first comma, or `unknown` when the record has no author.
pub open spec fn surname_of(m: Seq<(Seq<char>, Seq<Seq<char>>)>) -> Seq<char> {
    let vs = field_values(m, "AU"@);
    if vs.len() > 0 {
        before_comma(vs[0])
    } else {
        "unknown"@
    }
}

/// The year part of the citation key and of the year field: the first `PY`
/// value, or `????` when the record has no year.
pub open spec fn year_of(m: Seq<(Seq<char>, Seq<Seq<char>>)>) -> Seq<char> {
    first_or(m, "PY"@, "????"@)
}

/// The citation key: surname, then year.
pub open spec fn cite_key_of(m: Seq<(Seq<char>, Seq<Seq<char>>)>) -> Seq<char> {
    surname_of(m) + year_of(m)
}

/// Law: a record with no author and no year gets the citation key
/// `unknown????`.
pub proof fn lemma_unknown_cite_key(m: Seq<(Seq<char>, Seq<Seq<char>>)>)
    requires
        key_index(m, "AU"@) is None,
        key_index(m, "PY"@) is None,
    ensures
        cite_key_of(m) == "unknown????"@,
{
    reveal_strlit("unknown");
    reveal_strlit("????");
    reveal_strlit("unknown????");
    assert(cite_key_of(m) =~= "unknown????"@);
}

/// All the values joined with ` and ` between each two.
pub open spec fn join_authors(vs: Seq<Seq<char>>) -> Seq<char>
    decreases vs.len(),
{
    if vs.len() == 0 {
        Seq::empty()
    } else if vs.len() == 1 {
        vs[0]
    } else {
        join_authors(vs.drop_last()) + " and "@ + vs.last()
    }
}

/// The author field before escaping: all `AU` values joined with ` and `.
pub open spec fn authors_of(m: Seq<(Seq<char>, Seq<Seq<char>>)>) -> Seq<char> {
    join_authors(field_values(m, "AU"@))
}

/// The BibTeX entry type: the first `TY` value, defaulting to `MISC`,
/// mapped through the type table.
pub open spec fn entry_type_of(m: Seq<(Seq<char>, Seq<Seq<char>>)>) -> Seq<char> {
    bibtex_type_of(first_or(m, "TY"@, "MISC"@))
}

/// The rendered value of an ordinary field: the first value of its tag,
/// empty when absent, LaTeX-escaped.
pub open spec fn escaped_first(m: Seq<(Seq<char>, Seq<Seq<char>>)>, tag: Seq<char>) -> Seq<char> {
    escape_text(first_or(m, tag, Seq::empty()))
}

/// The full BibTeX entry for one parsed record.
pub open spec fn entry_text(m: Seq<(Seq<char>, Seq<Seq<char>>)>) -> Seq<char> {
    "@"@ + entry_type_of(m) + "{"@ + cite_key_of(m) + ",\n    author       = {"@ + escape_text(
        authors_of(m),
    ) + "},\n    title        = {"@ + escaped_first(m, "TI"@) + "},\n    journal      = {"@
        + escaped_first(m, "JO"@) + "},\n    booktitle    = {"@ + escaped_first(m, "T2"@)
        + "},\n    volume       = {"@ + escaped_first(m, "VL"@) + "},\n    number       = {"@
        + escaped_first(m, "IS"@) + "},\n    pages        = {"@ + escaped_first(m, "SP"@)
        + "},\n    year         = {"@ + year_of(m) + "},\n    doi          = {"@ + escaped_first(
        m,
        "DO"@,
    ) + "},\n    url          = {"@ + escaped_first(m, "UR"@) + "},\n    issn         = {"@
        + escaped_first(m, "SN"@) + "},\n    abstract     = {"@ + escaped_first(m, "AB"@)
        + "}\n    }"@
}

/// The first value of `tag`, or the empty string when the tag is absent.
fn first_or_empty(fm: &FieldMap, tag: &str) -> (r: String)
    ensures
        r@ == first_or(fm@, tag@, Seq::empty()),
{
    match fm.first_value(tag) {
        Some(s) => s,
        None => String::new(),
    }
}

/// Joins the values with ` and ` between each two.
fn join_and(vs: &Vec<String>) -> (r: String)
    ensures
        r@ == join_authors(vs.deep_view()),
{
    let mut r = String::new();
    let mut i: usize = 0;
    while i < vs.len()
        invariant
            i <= vs@.len(),
            vs.deep_view().len() == vs@.len(),
            r@ == join_authors(vs.deep_view().take(i as int)),
        decreases vs@.len() - i,
    {
        if i > 0 {
            r.append(" and ");
        }
        r.append(vs[i].as_str());
        proof {
            let d = vs.deep_view();
            assert(d.take(i + 1).drop_last() =~= d.take(i as int));
            assert(d.take(i + 1).last() == d[i as int]);
            if i == 0 {
                assert(r@ =~= join_authors(d.take(1int)));
            } else {
                assert(r@ =~= join_authors(d.take(i as int)) + " and "@ + d[i as int]);
            }
        }
        i += 1;
    }
    proof {
        assert(vs.deep_view().take(vs@.len() as int) =~= vs.deep_view());
    }
    r
}

/// The part of a name before its first comma; empty when it has no comma.
fn name_before_comma(name: &str) -> (r: String)
    ensures
        r@ == before_comma(name@),
{
    let v = chars_of(name);
    let comma: Vec<char> = vec![','];
    proof {
        assert(comma@ =~= seq![',']);
    }
    match find_sep_at(&v, &comma, 0) {
        Some(i) => {
            proof {
                lemma_find_sep_some(v@, comma@, 0, i as nat);
            }
            string_of(&subvec(&v, 0, i))
        },
        None => String::new(),
    }
}

/// Renders one parsed record as a BibTeX entry.
#[verifier::rlimit(100)]
pub fn format_entry(fm: &FieldMap) -> (r: String)
    ensures
        r@ == entry_text(fm@),
{
    let ty_code = match fm.first_value("TY") {
        Some(s) => s,
        None => String::from_str("MISC"),
    };
    let bib_type = guess_bibtex_type(ty_code.as_str());
    let surname = match fm.first_value("AU") {
        Some(name) => name_before_comma(name.as_str()),
        None => String::from_str("unknown"),
    };
    let year = match fm.first_value("PY") {
        Some(s) => s,
        None => String::from_str("????"),
    };
    let authors = join_and(&fm.all_values("AU"));
    let mut out = String::new();
    out.append("@");
    out.append(bib_type);
    out.append("{");
    out.append(surname.as_str());
    out.append(year.as_str());
    out.append(",\n    author       = {");
    out.append(latex_escape(authors.as_str()).as_str());
    out.append("},\n    title        = {");
    out.append(latex_escape(first_or_empty(fm, "TI").as_str()).as_str());
    out.append("},\n    journal      = {");
    out.append(latex_escape(first_or_empty(fm, "JO").as_str()).as_str());
    out.append("},\n    booktitle    = {");
    out.append(latex_escape(first_or_empty(fm, "T2").as_str()).as_str());
    out.append("},\n    volume       = {");
    out.append(latex_escape(first_or_empty(fm, "VL").as_str()).as_str());
    out.append("},\n    number       = {");
    out.append(latex_escape(first_or_empty(fm, "IS").as_str()).as_str());
    out.append("},\n    pages        = {");
    out.append(latex_escape(first_or_empty(fm, "SP").as_str()).as_str());
    out.append("},\n    year         = {");
    out.append(year.as_str());
    out.append("},\n    doi          = {");
    out.append(latex_escape(first_or_empty(fm, "DO").as_str()).as_str());
    out.append("},\n    url          = {");
    out.append(latex_escape(first_or_empty(fm, "UR").as_str()).as_str());
    out.append("},\n    issn         = {");
    out.append(latex_escape(first_or_empty(fm, "SN").as_str()).as_str());
    out.append("},\n    abstract     = {");
    out.append(latex_escape(first_or_empty(fm, "AB").as_str()).as_str());
    out.append("}\n    }");
    proof {
        assert(out@ =~= entry_text(fm@));
    }
    out
}

} // verus!
