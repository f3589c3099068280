//! Putting the replacement tags into the page, left to right, while the
//! positions of the tags still to come shift by what was already replaced.
use vstd::prelude::*;
use vstd::string::StringSliceAdditionalSpecFns;
use vstd::utf8::encode_utf8;
use crate::plan::{AssetDecision, DecisionView, PlanEntry};
use crate::scan::{MediaLink, spans_ordered};

verus! {

/// The bytes that take the place of an entry's tag, if it is relocated.
pub open spec fn replacement_bytes(e: PlanEntry) -> Option<Seq<u8>> {
    match e.decision@ {
        DecisionView::Local { replacement_tag, .. } => Some(encode_utf8(replacement_tag)),
        _ => None,
    }
}

/// `src` from byte `from` on, with the tag of each relocated entry of `plan`
/// replaced: the text up to the first relocated tag, its replacement, the
/// text between that tag's end and the next relocated tag, and so on.
pub open spec fn spliced(src: Seq<u8>, plan: Seq<PlanEntry>, from: int) -> Seq<u8>
    decreases plan.len(),
{
    if plan.len() == 0 {
        src.subrange(from, src.len() as int)
    } else {
        match replacement_bytes(plan[0]) {
            Some(r) => src.subrange(from, plan[0].link.start as int) + r + spliced(
                src,
                plan.drop_first(),
                plan[0].link.end as int,
            ),
            None => spliced(src, plan.drop_first(), from),
        }
    }
}

/// The links of a plan, in order.
pub open spec fn links_of(plan: Seq<PlanEntry>) -> Seq<MediaLink> {
    plan.map_values(|e: PlanEntry| e.link)
}

fn append_range(out: &mut Vec<u8>, src: &[u8], from: usize, to: usize)
    requires
        from <= to <= src@.len(),
    ensures
        final(out)@ == old(out)@ + src@.subrange(from as int, to as int),
{
    let mut k: usize = from;
    while k < to
        invariant
            from <= k <= to <= src@.len(),
            out@ == old(out)@ + src@.subrange(from as int, k as int),
        decreases to - k,
    {
        out.push(src[k]);
        k = k + 1;
        assert(out@ =~= old(out)@ + src@.subrange(from as int, k as int));
    }
}

/// The page with the tag of every relocated entry of `plan` replaced by its
/// replacement tag; every other byte is kept.
pub fn rewrite_content(html: &str, plan: &Vec<PlanEntry>) -> (r: Vec<u8>)
    requires
        spans_ordered(links_of(plan@), html.spec_bytes().len() as int),
    ensures
        r@ == spliced(html.spec_bytes(), plan@, 0),
{
    let bytes = html.as_bytes();
    let ghost src = bytes@;
    let ghost n = plan@.len() as int;
    let mut out: Vec<u8> = Vec::new();
    // `cursor` is the end, in the input page, of the last replaced tag;
    // `offset` is how much longer the output is than the input up to there.
    let mut cursor: usize = 0;
    let ghost mut offset: int = 0;
    let mut i: usize = 0;
    assert(plan@.subrange(0, n) =~= plan@);
    assert(out@ + spliced(src, plan@, 0) =~= spliced(src, plan@, 0));
    while i < plan.len()
        invariant
            src == html.spec_bytes(),
            bytes@ == src,
            n == plan@.len(),
            spans_ordered(links_of(plan@), src.len() as int),
            0 <= i <= n,
            cursor <= src.len(),
            forall|j: int| i <= j < n ==> cursor <= #[trigger] plan@[j].link.start,
            out@.len() == cursor + offset,
            out@ + spliced(src, plan@.subrange(i as int, n), cursor as int) == spliced(
                src,
                plan@,
                0,
            ),
        decreases n - i,
    {
        let ghost rest = plan@.subrange(i as int, n);
        assert(rest.drop_first() =~= plan@.subrange(i + 1, n));
        assert(rest[0] == plan@[i as int]);
        assert(links_of(plan@)[i as int] == plan@[i as int].link);
        let entry = &plan[i];
        match &entry.decision {
            AssetDecision::Local { replacement_tag, .. } => {
                let start = entry.link.start;
                let end = entry.link.end;
                let ghost before = out@;
                append_range(&mut out, bytes, cursor, start);
                // the tag now begins at its input start moved by `offset`
                assert(out@.len() == start + offset);
                let rep = replacement_tag.as_str().as_bytes();
                append_range(&mut out, rep, 0, rep.len());
                assert(rep@.subrange(0, rep@.len() as int) =~= rep@);
                proof {
                    offset = offset + rep@.len() - (end - start);
                }
                let ghost tail = spliced(src, plan@.subrange(i + 1, n), end as int);
                assert(out@ + tail =~= before + (src.subrange(cursor as int, start as int) + rep@
                    + tail));
                cursor = end;
                assert forall|j: int| i + 1 <= j < n implies cursor <= #[trigger] plan@[j].link.start by {
                    assert(links_of(plan@)[j] == plan@[j].link);
                }
            },
            _ => {},
        }
        i = i + 1;
    }
    let ghost before = out@;
    append_range(&mut out, bytes, cursor, bytes.len());
    assert(plan@.subrange(n, n).len() == 0);
    out
}

} // verus!
