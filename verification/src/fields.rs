//! The field mapping of one record: from a tag to the ordered values seen
//! for it, built line by line from a record block.

use vstd::prelude::*;
use vstd::string::StrSliceExecFns;
use vstd::string::StringExecFns;
use crate::chars::chars_of;
use crate::chars::str_eq;
use crate::chars::string_of;
use crate::chars::trim_chars;
use crate::chars::trim_text;
use crate::split::find_sep;
use crate::split::find_sep_at;
use crate::split::lemma_find_sep_some;
use crate::split::split_chars;
use crate::split::split_text;
use crate::split::subvec;

verus! {

/// The separator between a tag and its value on a RIS line: two spaces, a
/// hyphen and a space.
pub open spec fn field_sep() -> Seq<char> {
    seq![' ', ' ', '-', ' ']
}

/// The position of `tag` among the entries, at or after `from`.
pub open spec fn key_index_from(
    m: Seq<(Seq<char>, Seq<Seq<char>>)>,
    tag: Seq<char>,
    from: nat,
) -> Option<nat>
    decreases m.len() - from,
{
    if from >= m.len() {
        None
    } else if m[from as int].0 == tag {
        Some(from)
    } else {
        key_index_from(m, tag, (from + 1) as nat)
    }
}

/// The position of `tag` among the entries.
pub open spec fn key_index(m: Seq<(Seq<char>, Seq<Seq<char>>)>, tag: Seq<char>) -> Option<nat> {
    key_index_from(m, tag, 0)
}

/// The values recorded for `tag`: empty when the tag is absent.
pub open spec fn field_values(
    m: Seq<(Seq<char>, Seq<Seq<char>>)>,
    tag: Seq<char>,
) -> Seq<Seq<char>> {
    match key_index(m, tag) {
        None => Seq::empty(),
        Some(i) => m[i as int].1,
    }
}

/// What a found position means: that entry carries the tag, and no entry
/// before it does.
pub proof fn lemma_key_index_from_some(
    m: Seq<(Seq<char>, Seq<Seq<char>>)>,
    tag: Seq<char>,
    from: nat,
    i: nat,
)
    requires
        key_index_from(m, tag, from) == Some(i),
    ensures
        from <= i < m.len(),
        m[i as int].0 == tag,
        forall|j: nat| from <= j < i ==> (#[trigger] m[j as int]).0 != tag,
    decreases m.len() - from,
{
    if from >= m.len() {
    } else if m[from as int].0 == tag {
    } else {
        lemma_key_index_from_some(m, tag, (from + 1) as nat, i);
    }
}

/// What `None` means: no entry at or after `from` carries the tag.
pub proof fn lemma_key_index_from_none(
    m: Seq<(Seq<char>, Seq<Seq<char>>)>,
    tag: Seq<char>,
    from: nat,
)
    requires
        key_index_from(m, tag, from) is None,
    ensures
        forall|j: nat| from <= j < m.len() ==> (#[trigger] m[j as int]).0 != tag,
    decreases m.len() - from,
{
    if from >= m.len() {
    } else if m[from as int].0 == tag {
    } else {
        lemma_key_index_from_none(m, tag, (from + 1) as nat);
    }
}

/// The mapping after one more value for `tag`: appended to the entry that
/// carries the tag, or a fresh entry at the end.
pub open spec fn add_field(
    m: Seq<(Seq<char>, Seq<Seq<char>>)>,
    tag: Seq<char>,
    value: Seq<char>,
) -> Seq<(Seq<char>, Seq<Seq<char>>)> {
    match key_index(m, tag) {
        None => m.push((tag, seq![value])),
        Some(i) => m.update(i as int, (m[i as int].0, m[i as int].1.push(value))),
    }
}

/// The tag and value of one RIS line, split at the first tag separator and
/// trimmed; a line without the separator carries nothing.
pub open spec fn parse_line(line: Seq<char>) -> Option<(Seq<char>, Seq<char>)> {
    match find_sep(line, field_sep(), 0) {
        None => None,
        Some(i) => Some(
            (
                trim_text(line.subrange(0, i as int)),
                trim_text(line.subrange((i + field_sep().len()) as int, line.len() as int)),
            ),
        ),
    }
}

/// The field mapping built from the lines, in order.
pub open spec fn parse_lines(lines: Seq<Seq<char>>) -> Seq<(Seq<char>, Seq<Seq<char>>)>
    decreases lines.len(),
{
    if lines.len() == 0 {
        Seq::empty()
    } else {
        let m = parse_lines(lines.drop_last());
        match parse_line(lines.last()) {
            None => m,
            Some(tv) => add_field(m, tv.0, tv.1),
        }
    }
}

/// The field mapping of one record block: its newline-separated lines,
/// parsed in order.
pub open spec fn parse_text(block: Seq<char>) -> Seq<(Seq<char>, Seq<Seq<char>>)> {
    parse_lines(split_text(block, seq!['\n']))
}

/// A mapping from a RIS tag to the ordered sequence of values seen for it.
pub struct FieldMap {
    entries: Vec<(String, Vec<String>)>,
}

impl View for FieldMap {
    type V = Seq<(Seq<char>, Seq<Seq<char>>)>;

    closed spec fn view(&self) -> Seq<(Seq<char>, Seq<Seq<char>>)> {
        Seq::new(
            self.entries@.len(),
            |i: int| (self.entries@[i].0@, self.entries@[i].1.deep_view()),
        )
    }
}

impl FieldMap {
    /// Tags are pairwise distinct and every entry holds at least one value.
    pub open spec fn wf(self) -> bool {
        (forall|i: int, j: int| 0 <= i < j < self@.len() ==> self@[i].0 != self@[j].0) && (forall|
            i: int,
        |
            0 <= i < self@.len() ==> (#[trigger] self@[i]).1.len() >= 1)
    }

    /// An empty mapping.
    pub fn new() -> (r: FieldMap)
        ensures
            r@ == Seq::<(Seq<char>, Seq<Seq<char>>)>::empty(),
            r.wf(),
    {
        let r = FieldMap { entries: Vec::new() };
        proof {
            assert(r@ =~= Seq::<(Seq<char>, Seq<Seq<char>>)>::empty());
        }
        r
    }

    /// The position of the entry carrying `tag`, if any.
    fn find_key(&self, tag: &str) -> (r: Option<usize>)
        ensures
            match r {
                Some(i) => key_index(self@, tag@) == Some(i as nat),
                None => key_index(self@, tag@) is None,
            },
    {
        let mut j: usize = 0;
        while j < self.entries.len()
            invariant
                j <= self.entries@.len(),
                self@.len() == self.entries@.len(),
                key_index(self@, tag@) == key_index_from(self@, tag@, j as nat),
            decreases self.entries@.len() - j,
        {
            if str_eq(self.entries[j].0.as_str(), tag) {
                proof {
                    assert(self@[j as int].0 == tag@);
                }
                return Some(j);
            }
            proof {
                assert(self@[j as int].0 != tag@);
            }
            j += 1;
        }
        None
    }

    /// Records one more value for `tag`.
    pub fn add(&mut self, tag: String, value: String)
        requires
            old(self).wf(),
        ensures
            final(self)@ == add_field(old(self)@, tag@, value@),
            final(self).wf(),
    {
        let ghost prev = self@;
        match self.find_key(tag.as_str()) {
            Some(i) => {
                proof {
                    lemma_key_index_from_some(prev, tag@, 0, i as nat);
                }
                let mut e = self.entries.remove(i);
                e.1.push(value);
                self.entries.insert(i, e);
                proof {
                    assert(self@ =~~= add_field(prev, tag@, value@));
                }
            },
            None => {
                proof {
                    lemma_key_index_from_none(prev, tag@, 0);
                }
                let vs = vec![value];
                self.entries.push((tag, vs));
                proof {
                    assert(self@ =~~= add_field(prev, tag@, value@));
                }
            },
        }
    }

    /// The first value recorded for `tag`, if any.
    pub fn first_value(&self, tag: &str) -> (r: Option<String>)
        ensures
            match r {
                Some(s) => field_values(self@, tag@).len() > 0 && s@ == field_values(
                    self@,
                    tag@,
                )[0],
                None => field_values(self@, tag@).len() == 0,
            },
    {
        match self.find_key(tag) {
            Some(i) => {
                proof {
                    lemma_key_index_from_some(self@, tag@, 0, i as nat);
                }
                if self.entries[i].1.len() > 0 {
                    let s = self.entries[i].1[0].clone();
                    proof {
                        assert(s@ == field_values(self@, tag@)[0]);
                    }
                    Some(s)
                } else {
                    None
                }
            },
            None => None,
        }
    }

    /// All values recorded for `tag`, in order; empty when the tag is
    /// absent.
    pub fn all_values(&self, tag: &str) -> (r: Vec<String>)
        ensures
            r.deep_view() == field_values(self@, tag@),
    {
        let mut r: Vec<String> = Vec::new();
        match self.find_key(tag) {
            Some(i) => {
                proof {
                    lemma_key_index_from_some(self@, tag@, 0, i as nat);
                }
                let vs = &self.entries[i].1;
                let mut k: usize = 0;
                while k < vs.len()
                    invariant
                        k <= vs@.len(),
                        vs.deep_view() == field_values(self@, tag@),
                        vs.deep_view().len() == vs@.len(),
                        r.deep_view() == field_values(self@, tag@).take(k as int),
                    decreases vs@.len() - k,
                {
                    let ghost prev_deep = r.deep_view();
                    r.push(vs[k].clone());
                    proof {
                        assert(r.deep_view() =~~= prev_deep.push(vs.deep_view()[k as int]));
                        assert(r.deep_view() =~~= field_values(self@, tag@).take(k + 1));
                    }
                    k += 1;
                }
                proof {
                    assert(field_values(self@, tag@).take(vs@.len() as int) =~= field_values(
                        self@,
                        tag@,
                    ));
                }
                r
            },
            None => {
                proof {
                    assert(r.deep_view() =~= field_values(self@, tag@));
                }
                r
            },
        }
    }
}

/// Parses one record block into its field mapping.
pub fn parse_record(block: &str) -> (fm: FieldMap)
    ensures
        fm@ == parse_text(block@),
        fm.wf(),
{
    let v = chars_of(block);
    let nl: Vec<char> = vec!['\n'];
    proof {
        assert(nl@ =~= seq!['\n']);
    }
    let lines = split_chars(&v, &nl);
    let sep: Vec<char> = vec![' ', ' ', '-', ' '];
    proof {
        assert(sep@ =~= field_sep());
    }
    let mut fm = FieldMap::new();
    let mut i: usize = 0;
    proof {
        assert(lines.deep_view().take(0int) =~= Seq::<Seq<char>>::empty());
    }
    while i < lines.len()
        invariant
            i <= lines@.len(),
            lines.deep_view() == split_text(block@, seq!['\n']),
            lines.deep_view().len() == lines@.len(),
            sep@ == field_sep(),
            fm@ == parse_lines(lines.deep_view().take(i as int)),
            fm.wf(),
        decreases lines@.len() - i,
    {
        let line = &lines[i];
        proof {
            assert(line@ =~= lines.deep_view()[i as int]);
            assert(lines.deep_view().take(i + 1).drop_last() =~= lines.deep_view().take(i as int));
            assert(lines.deep_view().take(i + 1).last() == line@);
        }
        match find_sep_at(line, &sep, 0) {
            Some(p) => {
                proof {
                    lemma_find_sep_some(line@, sep@, 0, p as nat);
                }
                let ll = line.len();
                let tag_chars = trim_chars(&subvec(line, 0, p));
                let val_chars = trim_chars(&subvec(line, p + sep.len(), ll));
                let tag = string_of(&tag_chars);
                let value = string_of(&val_chars);
                proof {
                    assert(parse_line(line@) == Some((tag@, value@)));
                }
                fm.add(tag, value);
            },
            None => {
                proof {
                    assert(parse_line(line@) is None);
                }
            },
        }
        i += 1;
    }
    proof {
        assert(lines.deep_view().take(lines@.len() as int) =~= lines.deep_view());
    }
    fm
}

} // verus!
