//! Finding the image references of a rendered page.
use vstd::prelude::*;
use vstd::string::StringSliceAdditionalSpecFns;

verus! {

/// One item of the tag scan: its byte span `[start, end)` in the page, the
/// tag name (empty for a run of text) and the raw attribute text.
pub struct ScannedTag {
    pub start: usize,
    pub end: usize,
    pub name: String,
    pub attributes: String,
}

/// One attribute of a tag, with the quotes of its value removed.
pub struct Attribute {
    pub name: String,
    pub value: String,
}

/// An `img` tag with a `src` attribute: the byte span of the whole tag in
/// the page and the attribute's value.
pub struct MediaLink {
    pub start: usize,
    pub end: usize,
    pub url: String,
}

/// The items that the tag scan of a page yields, in document order.
pub uninterp spec fn tags_of(html: Seq<char>) -> Seq<(int, int, Seq<char>, Seq<char>)>;

/// The attributes that the attribute scan of a tag's attribute text yields.
pub uninterp spec fn attrs_of(attributes: Seq<char>) -> Seq<(Seq<char>, Seq<char>)>;

pub open spec fn tag_view(t: ScannedTag) -> (int, int, Seq<char>, Seq<char>) {
    (t.start as int, t.end as int, t.name@, t.attributes@)
}

pub open spec fn link_view(l: MediaLink) -> (int, int, Seq<char>) {
    (l.start as int, l.end as int, l.url@)
}

/// Relies on htmlstream::tag_iter, which walks the page's bytes once and
/// yields text runs and tags with their byte positions: every item spans at
/// least one byte, lies within the page, and starts where an earlier one ended
/// or later. Runs of text have an empty name; an item with a name is a tag,
/// which begins with `<` and ends with `>`.
#[verifier::external_body]
fn scan_tags(html: &str) -> (r: Vec<ScannedTag>)
    ensures
        r@.len() == tags_of(html@).len(),
        forall|i: int| 0 <= i < r@.len() ==> tag_view(#[trigger] r@[i]) == tags_of(html@)[i],
        forall|i: int|
            0 <= i < r@.len() ==> #[trigger] r@[i].start < r@[i].end && r@[i].end
                <= html.spec_bytes().len(),
        forall|i: int, j: int| 0 <= i < j < r@.len() ==> #[trigger] r@[i].end <= #[trigger] r@[j].start,
        forall|i: int|
            0 <= i < r@.len() && (#[trigger] r@[i]).name@.len() > 0 ==> html.spec_bytes()[r@[i].start as int]
                == 60u8 && html.spec_bytes()[r@[i].end - 1] == 62u8,
{
    let mut out = Vec::new();
    for (pos, tag) in htmlstream::tag_iter(html) {
        out.push(ScannedTag { start: pos.start, end: pos.end, name: tag.name, attributes: tag.attributes });
    }
    out
}

/// Relies on htmlstream::attr_iter, which splits a tag's attribute text into
/// names and values (quoted with `"` or `'`, or bare up to a blank). It cuts
/// a quoted value one byte after the first `=` of the attribute, which lands
/// inside a character when a non-ASCII one follows that `=`; such text is
/// left out.
#[verifier::external_body]
fn scan_attributes(attributes: &str) -> (r: Vec<Attribute>)
    requires
        attr_text_scannable(attributes@),
    ensures
        r@.len() == attrs_of(attributes@).len(),
        forall|i: int|
            0 <= i < r@.len() ==> (#[trigger] r@[i].name@, r@[i].value@) == attrs_of(attributes@)[i],
{
    let mut out = Vec::new();
    for (_, attr) in htmlstream::attr_iter(attributes) {
        out.push(Attribute { name: attr.name, value: attr.value });
    }
    out
}

/// Attribute text in which every `=` that has a character after it has an
/// ASCII one.
pub open spec fn attr_text_scannable(s: Seq<char>) -> bool {
    forall|i: int| 0 <= i && i + 1 < s.len() && #[trigger] s[i] == '=' ==> (s[i + 1] as u32) < 128
}

/// Whether the attribute scan can take `attributes` apart.
pub fn attributes_scannable(attributes: &str) -> (r: bool)
    ensures
        r == attr_text_scannable(attributes@),
{
    let n = attributes.unicode_len();
    if n == 0 {
        return true;
    }
    let mut i: usize = 0;
    while i + 1 < n
        invariant
            n == attributes@.len(),
            n > 0,
            i + 1 <= n,
            forall|j: int|
                0 <= j < i && #[trigger] attributes@[j] == '=' ==> (attributes@[j + 1] as u32) < 128,
        decreases n - i,
    {
        if attributes.get_char(i) == '=' && (attributes.get_char(i + 1) as u32) >= 128 {
            return false;
        }
        i = i + 1;
    }
    true
}

/// The value of the first attribute named `src`, if any.
pub open spec fn src_of(attrs: Seq<(Seq<char>, Seq<char>)>) -> Option<Seq<char>>
    decreases attrs.len(),
{
    if attrs.len() == 0 {
        None
    } else if attrs[0].0 == "src"@ {
        Some(attrs[0].1)
    } else {
        src_of(attrs.drop_first())
    }
}

/// The image references of a scan: each tag named `img` whose attribute
/// text the attribute scan can take apart and that has a `src` attribute,
/// with its span and that attribute's value, in scan order.
pub open spec fn img_links(tags: Seq<(int, int, Seq<char>, Seq<char>)>) -> Seq<(int, int, Seq<char>)>
    decreases tags.len(),
{
    if tags.len() == 0 {
        Seq::empty()
    } else {
        let t = tags.last();
        let rest = img_links(tags.drop_last());
        if t.2 == "img"@ && attr_text_scannable(t.3) && src_of(attrs_of(t.3)) is Some {
            rest.push((t.0, t.1, src_of(attrs_of(t.3))->0))
        } else {
            rest
        }
    }
}

/// Spans that lie within a page of `len` bytes and follow each other
/// without overlap.
pub open spec fn spans_ordered(links: Seq<MediaLink>, len: int) -> bool {
    &&& forall|i: int|
        0 <= i < links.len() ==> #[trigger] links[i].start <= links[i].end && links[i].end <= len
    &&& forall|i: int, j: int| 0 <= i < j < links.len() ==> #[trigger] links[i].end <= #[trigger] links[j].start
}

/// The value of the first attribute named `src` in `attrs`.
pub fn find_src(attrs: &Vec<Attribute>) -> (r: Option<String>)
    ensures
        r matches Some(v) ==> src_of(attrs@.map_values(|a: Attribute| (a.name@, a.value@))) == Some(
            v@,
        ),
        r is None ==> src_of(attrs@.map_values(|a: Attribute| (a.name@, a.value@))) is None,
{
    let ghost view = attrs@.map_values(|a: Attribute| (a.name@, a.value@));
    let src = String::from_str("src");
    let mut i: usize = 0;
    assert(view.subrange(0, view.len() as int) =~= view);
    while i < attrs.len()
        invariant
            src@ == "src"@,
            0 <= i <= attrs@.len(),
            view == attrs@.map_values(|a: Attribute| (a.name@, a.value@)),
            src_of(view) == src_of(view.subrange(i as int, view.len() as int)),
        decreases attrs.len() - i,
    {
        let ghost tail = view.subrange(i as int, view.len() as int);
        assert(tail.drop_first() =~= view.subrange(i + 1, view.len() as int));
        if attrs[i].name == src {
            return Some(attrs[i].value.clone());
        }
        i = i + 1;
    }
    assert(view.subrange(i as int, view.len() as int).len() == 0);
    None
}

/// The image references of `content`: each `img` tag with a `src`
/// attribute, in document order, with the tag's byte span. A tag whose
/// attribute text the attribute scan cannot take apart is passed over.
pub fn get_img_links(content: &str) -> (r: Vec<MediaLink>)
    ensures
        r@.map_values(|l: MediaLink| link_view(l)) == img_links(tags_of(content@)),
        spans_ordered(r@, content.spec_bytes().len() as int),
        forall|k: int|
            0 <= k < r@.len() ==> (#[trigger] r@[k]).start < r@[k].end && content.spec_bytes()[r@[k].start as int]
                == 60u8 && content.spec_bytes()[r@[k].end - 1] == 62u8,
{
    proof {
        reveal_strlit("img");
    }
    let tags = scan_tags(content);
    let ghost all = tags_of(content@);
    let img = String::from_str("img");
    let mut results: Vec<MediaLink> = Vec::new();
    let mut i: usize = 0;
    while i < tags.len()
        invariant
            img@ == "img"@,
            0 <= i <= tags@.len(),
            tags@.len() == all.len(),
            forall|k: int| 0 <= k < tags@.len() ==> tag_view(#[trigger] tags@[k]) == all[k],
            forall|k: int|
                0 <= k < tags@.len() && (#[trigger] tags@[k]).name@.len() > 0 ==> content.spec_bytes()[tags@[k].start as int]
                    == 60u8 && content.spec_bytes()[tags@[k].end - 1] == 62u8,
            forall|k: int|
                0 <= k < results@.len() ==> (#[trigger] results@[k]).start < results@[k].end
                    && content.spec_bytes()[results@[k].start as int] == 60u8
                    && content.spec_bytes()[results@[k].end - 1] == 62u8,
            "img"@.len() == 3,
            forall|k: int|
                0 <= k < tags@.len() ==> #[trigger] tags@[k].start < tags@[k].end && tags@[k].end
                    <= content.spec_bytes().len(),
            forall|a: int, b: int|
                0 <= a < b < tags@.len() ==> #[trigger] tags@[a].end <= #[trigger] tags@[b].start,
            results@.map_values(|l: MediaLink| link_view(l)) == img_links(
                all.subrange(0, i as int),
            ),
            forall|k: int|
                0 <= k < results@.len() ==> exists|t: int|
                    0 <= t < i && #[trigger] results@[k].start == tags@[t].start
                        && results@[k].end == tags@[t].end,
            spans_ordered(results@, content.spec_bytes().len() as int),
            results@.len() > 0 ==> exists|t: int|
                0 <= t < i && results@.last().end == #[trigger] tags@[t].end,
        decreases tags.len() - i,
    {
        let ghost prefix = all.subrange(0, i as int + 1);
        assert(prefix.drop_last() =~= all.subrange(0, i as int));
        assert(prefix.last() == tag_view(tags@[i as int]));
        let tag = &tags[i];
        if tag.name == img && attributes_scannable(tag.attributes.as_str()) {
            let attrs = scan_attributes(tag.attributes.as_str());
            assert(attrs@.map_values(|a: Attribute| (a.name@, a.value@)) =~= attrs_of(
                tag.attributes@,
            ));
            match find_src(&attrs) {
                Some(url) => {
                    let ghost before = results@;
                    results.push(MediaLink { start: tag.start, end: tag.end, url });
                    assert(results@.map_values(|l: MediaLink| link_view(l)) =~= before.map_values(
                        |l: MediaLink| link_view(l),
                    ).push(link_view(results@.last())));
                    assert forall|k: int|
                        0 <= k < results@.len() implies exists|t: int|
                        0 <= t < i + 1 && #[trigger] results@[k].start == tags@[t].start
                            && results@[k].end == tags@[t].end by {
                        if k == results@.len() - 1 {
                            assert(results@[k].start == tags@[i as int].start);
                        } else {
                            assert(results@[k] == before[k]);
                        }
                    }
                    assert forall|k: int| 0 <= k < results@.len() implies (
                    #[trigger] results@[k]).start < results@[k].end && content.spec_bytes()[results@[k].start as int]
                        == 60u8 && content.spec_bytes()[results@[k].end - 1] == 62u8 by {
                        if k < results@.len() - 1 {
                            assert(results@[k] == before[k]);
                        } else {
                            assert(tags@[i as int].name@ == "img"@);
                            assert(tags@[i as int].name@.len() > 0);
                            assert(results@[k].start == tags@[i as int].start);
                            assert(results@[k].end == tags@[i as int].end);
                        }
                    }
                    assert forall|a: int, b: int|
                        0 <= a < b < results@.len() implies #[trigger] results@[a].end
                        <= #[trigger] results@[b].start by {
                        if b == results@.len() - 1 {
                            assert(results@[a] == before[a]);
                            let t = choose|t: int|
                                0 <= t < i && #[trigger] results@[a].start == tags@[t].start
                                    && results@[a].end == tags@[t].end;
                            assert(tags@[t].end <= tags@[i as int].start);
                        } else {
                            assert(results@[a] == before[a]);
                            assert(results@[b] == before[b]);
                        }
                    }
                },
                None => {},
            }
        }
        i = i + 1;
    }
    assert(all.subrange(0, i as int) =~= all);
    results
}

/// Whether the spans of `links` lie within a page of `len` bytes and follow
/// each other without overlap.
pub fn links_in_order(links: &Vec<MediaLink>, len: usize) -> (r: bool)
    ensures
        r == spans_ordered(links@, len as int),
{
    let mut i: usize = 0;
    while i < links.len()
        invariant
            0 <= i <= links@.len(),
            spans_ordered(links@.subrange(0, i as int), len as int),
        decreases links.len() - i,
    {
        let ghost prefix = links@.subrange(0, i as int);
        let ghost next = links@.subrange(0, i as int + 1);
        if links[i].start > links[i].end || links[i].end > len {
            assert(next[i as int] == links@[i as int]);
            assert(!spans_ordered(links@, len as int));
            return false;
        }
        if i > 0 && links[i - 1].end > links[i].start {
            assert(!spans_ordered(links@, len as int));
            return false;
        }
        assert forall|a: int, b: int| 0 <= a < b < next.len() implies #[trigger] next[a].end
            <= #[trigger] next[b].start by {
            if b == i {
                if a < i - 1 {
                    assert(prefix[a].end <= prefix[i - 1].start);
                    assert(prefix[i - 1].start <= prefix[i - 1].end);
                }
            } else {
                assert(prefix[a] == next[a] && prefix[b] == next[b]);
            }
        }
        assert forall|a: int| 0 <= a < next.len() implies #[trigger] next[a].start <= next[a].end
            && next[a].end <= len by {
            if a < i {
                assert(prefix[a] == next[a]);
            }
        }
        i = i + 1;
    }
    assert(links@.subrange(0, i as int) =~= links@);
    true
}

} // verus!
