//! One page's relocation pass: plan, rewrite and list the copies, and what
//! holds of it.
use vstd::prelude::*;
use vstd::string::StringSliceAdditionalSpecFns;
use vstd::utf8::encode_utf8;
use crate::plan::{
    copies_of, copy_jobs, job_view, plan_assets, planned, CopyJob, PlanEntry,
    Resolution,
};
use crate::rewrite::{links_of, replacement_bytes, rewrite_content, spliced};
use crate::scan::{img_links, link_view, spans_ordered, tags_of, MediaLink};

verus! {

/// The outcome of relocating the images of one page.
pub struct Relocation {
    /// The decision taken for each reference, in order.
    pub plan: Vec<PlanEntry>,
    /// The rewritten page, as bytes.
    pub content: Vec<u8>,
    /// The files to copy into the post's folder.
    pub copies: Vec<CopyJob>,
}

/// Plans the references of `content`, rewrites the page accordingly and
/// lists the copies to make. `resolutions[i]` is what the file system said
/// of the source of `links[i]` (it is not read for references that are not
/// local).
pub fn move_img_links(content: &str, links: &Vec<MediaLink>, resolutions: &Vec<Resolution>) -> (r:
    Relocation)
    requires
        links@.len() == resolutions@.len(),
        spans_ordered(links@, content.spec_bytes().len() as int),
    ensures
        planned(r.plan@, links@, resolutions@),
        r.content@ == spliced(content.spec_bytes(), r.plan@, 0),
        r.copies@.map_values(|j: CopyJob| job_view(j)) == copies_of(r.plan@),
{
    let plan = plan_assets(links, resolutions);
    proof {
        lemma_plan_keeps_spans(plan@, links@, resolutions@, content.spec_bytes().len() as int);
    }
    let rewritten = rewrite_content(content, &plan);
    let copies = copy_jobs(&plan);
    Relocation { plan, content: rewritten, copies }
}

proof fn lemma_plan_keeps_spans(
    plan: Seq<PlanEntry>,
    links: Seq<MediaLink>,
    resolutions: Seq<Resolution>,
    len: int,
)
    requires
        planned(plan, links, resolutions),
        spans_ordered(links, len),
    ensures
        spans_ordered(links_of(plan), len),
{
    let ls = links_of(plan);
    assert forall|i: int| 0 <= i < ls.len() implies #[trigger] ls[i].start == links[i].start
        && ls[i].end == links[i].end by {
        assert(link_view(plan[i].link) == link_view(links[i]));
    }
    assert forall|a: int, b: int| 0 <= a < b < ls.len() implies #[trigger] ls[a].end
        <= #[trigger] ls[b].start by {
        assert(ls[a].end == links[a].end && ls[b].start == links[b].start);
    }
}

proof fn lemma_img_links_empty(tags: Seq<(int, int, Seq<char>, Seq<char>)>)
    requires
        forall|i: int| 0 <= i < tags.len() ==> (#[trigger] tags[i]).2 != "img"@,
    ensures
        img_links(tags).len() == 0,
    decreases tags.len(),
{
    if tags.len() > 0 {
        let rest = tags.drop_last();
        assert forall|i: int| 0 <= i < rest.len() implies (#[trigger] rest[i]).2 != "img"@ by {
            assert(rest[i] == tags[i]);
        }
        lemma_img_links_empty(rest);
        assert(tags.last() == tags[tags.len() - 1]);
    }
}

proof fn lemma_spliced_identity(src: Seq<u8>, plan: Seq<PlanEntry>, from: int)
    requires
        0 <= from <= src.len(),
        forall|i: int| 0 <= i < plan.len() ==> replacement_bytes(#[trigger] plan[i]) is None,
    ensures
        spliced(src, plan, from) == src.subrange(from, src.len() as int),
    decreases plan.len(),
{
    if plan.len() > 0 {
        let rest = plan.drop_first();
        assert forall|i: int| 0 <= i < rest.len() implies replacement_bytes(#[trigger] rest[i]) is None by {
            assert(rest[i] == plan[i + 1]);
        }
        assert(replacement_bytes(plan[0]) is None);
        lemma_spliced_identity(src, rest, from);
    }
}

/// A plan in which no reference is relocated (each is remote, unsupported or
/// failed to resolve) leaves the page byte for byte as it was.
pub proof fn lemma_rewrite_keeps_page_without_local(src: Seq<u8>, plan: Seq<PlanEntry>)
    requires
        forall|i: int| 0 <= i < plan.len() ==> !((#[trigger] plan[i]).decision@ is Local),
    ensures
        spliced(src, plan, 0) == src,
{
    assert forall|i: int| 0 <= i < plan.len() implies replacement_bytes(#[trigger] plan[i]) is None by {
        assert(!(plan[i].decision@ is Local));
    }
    lemma_spliced_identity(src, plan, 0);
    assert(src.subrange(0, src.len() as int) =~= src);
}

/// A page without `img` tags has no image references: whatever the file
/// system says, the rewritten page is the page itself and nothing is copied.
pub proof fn lemma_page_without_images(
    html: Seq<char>,
    links: Seq<MediaLink>,
    resolutions: Seq<Resolution>,
    plan: Seq<PlanEntry>,
)
    requires
        forall|i: int|
            0 <= i < tags_of(html).len() ==> (#[trigger] tags_of(html)[i]).2 != "img"@,
        links.map_values(|l: MediaLink| link_view(l)) == img_links(tags_of(html)),
        planned(plan, links, resolutions),
    ensures
        links.len() == 0,
        spliced(encode_utf8(html), plan, 0) == encode_utf8(html),
        copies_of(plan).len() == 0,
{
    lemma_img_links_empty(tags_of(html));
    assert(links.map_values(|l: MediaLink| link_view(l)).len() == links.len());
    lemma_rewrite_keeps_page_without_local(encode_utf8(html), plan);
}

/// Planning the same references with the same resolutions twice gives the
/// same decisions, and so the same file names, for every ordinal.
pub proof fn lemma_ordinal_names_stable(
    links: Seq<MediaLink>,
    resolutions: Seq<Resolution>,
    first: Seq<PlanEntry>,
    second: Seq<PlanEntry>,
)
    requires
        planned(first, links, resolutions),
        planned(second, links, resolutions),
    ensures
        first.len() == second.len(),
        forall|i: int| 0 <= i < first.len() ==> (#[trigger] first[i]).decision@ == second[i].decision@,
{
    assert forall|i: int| 0 <= i < first.len() implies (#[trigger] first[i]).decision@
        == second[i].decision@ by {
        assert(link_view(first[i].link) == link_view(links[i]));
        assert(link_view(second[i].link) == link_view(links[i]));
    }
}

/// How much longer the replacements of `plan` are than the tags they replace,
/// summed over the relocated entries: the offset after the last of them.
pub open spec fn length_change(plan: Seq<PlanEntry>) -> int
    decreases plan.len(),
{
    if plan.len() == 0 {
        0
    } else {
        let rest = length_change(plan.drop_first());
        match replacement_bytes(plan[0]) {
            Some(r) => r.len() - (plan[0].link.end - plan[0].link.start) + rest,
            None => rest,
        }
    }
}

/// Every entry of `plan` lies within `[from, len]`, and the entries follow
/// each other without overlap.
pub open spec fn fits(plan: Seq<PlanEntry>, from: int, len: int) -> bool {
    &&& 0 <= from <= len
    &&& forall|i: int|
        0 <= i < plan.len() ==> from <= (#[trigger] plan[i]).link.start <= plan[i].link.end <= len
    &&& forall|i: int, j: int|
        0 <= i < j < plan.len() ==> (#[trigger] plan[i]).link.end <= (#[trigger] plan[j]).link.start
}

proof fn lemma_fits_rest(plan: Seq<PlanEntry>, from: int, len: int)
    requires
        plan.len() > 0,
        fits(plan, from, len),
    ensures
        fits(plan.drop_first(), from, len),
        fits(plan.drop_first(), plan[0].link.end as int, len),
{
    let rest = plan.drop_first();
    assert forall|i: int, j: int| 0 <= i < j < rest.len() implies (#[trigger] rest[i]).link.end
        <= (#[trigger] rest[j]).link.start by {
        assert(rest[i] == plan[i + 1] && rest[j] == plan[j + 1]);
    }
    assert forall|i: int| 0 <= i < rest.len() implies plan[0].link.end <= (
    #[trigger] rest[i]).link.start <= rest[i].link.end <= len by {
        assert(rest[i] == plan[i + 1]);
    }
}

proof fn lemma_fits_from_order(plan: Seq<PlanEntry>, len: int)
    requires
        spans_ordered(links_of(plan), len),
        0 <= len,
    ensures
        fits(plan, 0, len),
{
    let ls = links_of(plan);
    assert forall|i: int| 0 <= i < plan.len() implies 0 <= (#[trigger] plan[i]).link.start
        <= plan[i].link.end <= len by {
        assert(ls[i] == plan[i].link);
    }
    assert forall|i: int, j: int| 0 <= i < j < plan.len() implies (#[trigger] plan[i]).link.end
        <= (#[trigger] plan[j]).link.start by {
        assert(ls[i] == plan[i].link && ls[j] == plan[j].link);
    }
}

proof fn lemma_spliced_length(src: Seq<u8>, plan: Seq<PlanEntry>, from: int)
    requires
        fits(plan, from, src.len() as int),
    ensures
        spliced(src, plan, from).len() == src.len() - from + length_change(plan),
    decreases plan.len(),
{
    if plan.len() > 0 {
        lemma_fits_rest(plan, from, src.len() as int);
        match replacement_bytes(plan[0]) {
            Some(r) => lemma_spliced_length(src, plan.drop_first(), plan[0].link.end as int),
            None => lemma_spliced_length(src, plan.drop_first(), from),
        }
    }
}

proof fn lemma_placed_from(src: Seq<u8>, plan: Seq<PlanEntry>, from: int, k: int)
    requires
        fits(plan, from, src.len() as int),
        0 <= k < plan.len(),
        replacement_bytes(plan[k]) is Some,
    ensures
        ({
            let r = replacement_bytes(plan[k])->0;
            let p = plan[k].link.start - from + length_change(plan.take(k));
            let out = spliced(src, plan, from);
            0 <= p && p + r.len() <= out.len() && out.subrange(p, p + r.len()) == r
        }),
    decreases plan.len(),
{
    let rest = plan.drop_first();
    lemma_fits_rest(plan, from, src.len() as int);
    if k == 0 {
        let r = replacement_bytes(plan[0])->0;
        let x = src.subrange(from, plan[0].link.start as int);
        let tail = spliced(src, rest, plan[0].link.end as int);
        assert(plan.take(0).len() == 0);
        assert((x + r + tail).subrange(x.len() as int, (x.len() + r.len()) as int) =~= r);
    } else {
        let r = replacement_bytes(plan[k])->0;
        assert(plan.take(k)[0] == plan[0]);
        assert(plan.take(k).drop_first() =~= rest.take(k - 1));
        assert(rest[k - 1] == plan[k]);
        match replacement_bytes(plan[0]) {
            Some(r0) => {
                let e0 = plan[0].link.end as int;
                lemma_placed_from(src, rest, e0, k - 1);
                let x = src.subrange(from, plan[0].link.start as int) + r0;
                let tail = spliced(src, rest, e0);
                let q = plan[k].link.start - e0 + length_change(rest.take(k - 1));
                assert((x + tail).subrange(x.len() as int + q, x.len() as int + q + r.len()) =~= tail.subrange(
                    q,
                    q + r.len(),
                ));
                assert(spliced(src, plan, from) == x + tail);
            },
            None => {
                lemma_placed_from(src, rest, from, k - 1);
            },
        }
    }
}

/// The rewritten page is as long as the input plus, for each relocated
/// reference, the length of its replacement less that of the tag it replaces,
/// whether the replacement is longer, shorter or just as long.
pub proof fn lemma_rewritten_length(src: Seq<u8>, plan: Seq<PlanEntry>)
    requires
        spans_ordered(links_of(plan), src.len() as int),
    ensures
        spliced(src, plan, 0).len() == src.len() + length_change(plan),
{
    lemma_fits_from_order(plan, src.len() as int);
    lemma_spliced_length(src, plan, 0);
}

/// Each replacement lands in the rewritten page at its tag's start in the input
/// moved by the offset that the replacements before it built up: the length
/// change of the entries that precede it.
pub proof fn lemma_replacement_placed(src: Seq<u8>, plan: Seq<PlanEntry>, k: int)
    requires
        spans_ordered(links_of(plan), src.len() as int),
        0 <= k < plan.len(),
        replacement_bytes(plan[k]) is Some,
    ensures
        ({
            let r = replacement_bytes(plan[k])->0;
            let p = plan[k].link.start + length_change(plan.take(k));
            let out = spliced(src, plan, 0);
            0 <= p && p + r.len() <= out.len() && out.subrange(p, p + r.len()) == r
        }),
{
    lemma_fits_from_order(plan, src.len() as int);
    lemma_placed_from(src, plan, 0, k);
}

} // verus!
