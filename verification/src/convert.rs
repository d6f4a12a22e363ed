//! The whole conversion: split the document into record blocks, skip blank
//! blocks, and render one BibTeX entry per remaining record, each followed
//! by a newline.

use vstd::prelude::*;
use vstd::string::StringExecFns;
use crate::chars::chars_of;
use crate::chars::trim_chars;
use crate::chars::trim_text;
use crate::fields::parse_record;
use crate::fields::parse_text;
use crate::format::entry_text;
use crate::format::format_entry;
use crate::split::record_marker;
use crate::split::split_records;
use crate::split::split_text;

verus! {

/// Whether a block holds only white space.
pub open spec fn is_blank(s: Seq<char>) -> bool {
    trim_text(s).len() == 0
}

/// The output for a sequence of record blocks: one BibTeX entry and a
/// newline per block that is not blank.
pub open spec fn render_blocks(bs: Seq<Seq<char>>) -> Seq<char>
    decreases bs.len(),
{
    if bs.len() == 0 {
        Seq::empty()
    } else {
        render_blocks(bs.drop_last()) + (if is_blank(bs.last()) {
            Seq::<char>::empty()
        } else {
            entry_text(parse_text(bs.last())) + "\n"@
        })
    }
}

/// The output for a whole document.
pub open spec fn convert_text(doc: Seq<char>) -> Seq<char> {
    render_blocks(split_text(doc, record_marker()))
}

/// Law: a blank block — such as the trailing segment after the last
/// end-of-record marker — adds nothing to the output.
pub proof fn lemma_blank_block_excluded(bs: Seq<Seq<char>>, b: Seq<char>)
    requires
        is_blank(b),
    ensures
        render_blocks(bs.push(b)) == render_blocks(bs),
{
    assert(bs.push(b).drop_last() =~= bs);
    assert(bs.push(b).last() == b);
    assert(render_blocks(bs.push(b)) =~= render_blocks(bs));
}

/// Converts a whole RIS document into BibTeX entries, one per record block
/// that is not blank, each followed by a newline.
pub fn convert_document(document: &str) -> (r: String)
    ensures
        r@ == convert_text(document@),
{
    let blocks = split_records(document);
    let mut out = String::new();
    let mut i: usize = 0;
    while i < blocks.len()
        invariant
            i <= blocks@.len(),
            blocks.deep_view() == split_text(document@, record_marker()),
            blocks.deep_view().len() == blocks@.len(),
            out@ == render_blocks(blocks.deep_view().take(i as int)),
        decreases blocks@.len() - i,
    {
        let ghost d = blocks.deep_view();
        let block = &blocks[i];
        proof {
            assert(block@ == d[i as int]);
            assert(d.take(i + 1).drop_last() =~= d.take(i as int));
            assert(d.take(i + 1).last() == d[i as int]);
        }
        let cv = chars_of(block.as_str());
        let t = trim_chars(&cv);
        if t.len() > 0 {
            let fm = parse_record(block.as_str());
            let entry = format_entry(&fm);
            out.append(entry.as_str());
            out.append("\n");
            proof {
                assert(out@ =~= render_blocks(d.take(i + 1)));
            }
        } else {
            proof {
                assert(is_blank(d[i as int]));
                assert(out@ =~= render_blocks(d.take(i + 1)));
            }
        }
        i += 1;
    }
    proof {
        assert(blocks.deep_view().take(blocks@.len() as int) =~= blocks.deep_view());
    }
    out
}

} // verus!
