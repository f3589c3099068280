//! Deciding, for each image reference, whether it is relocated and under
//! which name.
use vstd::prelude::*;
use crate::scan::{MediaLink, link_view};
use crate::text::{decimal, decimal_string, has_prefix, starts_with, starts_with_ignore_case};

verus! {

/// Where an image reference points.
#[derive(PartialEq, Eq, Structural, Clone, Copy, Debug)]
pub enum LinkKind {
    /// Hosted elsewhere (`http...`); left as it is.
    Remote,
    /// Inside the backup's own content tree (`/content...`); relocated.
    Local,
    /// Anything else; left as it is.
    Unsupported,
}

/// Why a local reference could not be relocated.
#[derive(PartialEq, Eq, Structural, Clone, Copy, Debug)]
pub enum AssetResolutionError {
    /// The source file does not exist or its path could not be resolved.
    SourceNotFound,
    /// The resolved source path has no file extension.
    MissingExtension,
}

/// What the file system said of a local reference's source file.
pub enum Resolution {
    /// The path could not be resolved.
    NotFound,
    /// The path resolved; this is the extension of the resolved path, if any.
    Found(Option<String>),
}

/// The decision taken for one reference.
pub enum AssetDecision {
    Remote,
    Unsupported,
    Failed(AssetResolutionError),
    /// Copy `source` (relative to the backup's root) to `new_filename` in the
    /// post's folder and put `replacement_tag` in place of the tag in the page.
    Local { source: String, new_filename: String, replacement_tag: String },
}

/// The mathematical value of an [`AssetDecision`].
pub enum DecisionView {
    Remote,
    Unsupported,
    Failed(AssetResolutionError),
    Local { source: Seq<char>, new_filename: Seq<char>, replacement_tag: Seq<char> },
}

impl View for Resolution {
    type V = Option<Option<Seq<char>>>;

    open spec fn view(&self) -> Option<Option<Seq<char>>> {
        match self {
            Resolution::NotFound => None,
            Resolution::Found(None) => Some(None),
            Resolution::Found(Some(e)) => Some(Some(e@)),
        }
    }
}

impl View for AssetDecision {
    type V = DecisionView;

    open spec fn view(&self) -> DecisionView {
        match self {
            AssetDecision::Remote => DecisionView::Remote,
            AssetDecision::Unsupported => DecisionView::Unsupported,
            AssetDecision::Failed(e) => DecisionView::Failed(*e),
            AssetDecision::Local { source, new_filename, replacement_tag } => DecisionView::Local {
                source: source@,
                new_filename: new_filename@,
                replacement_tag: replacement_tag@,
            },
        }
    }
}

/// A reference together with the decision taken for it.
pub struct PlanEntry {
    pub link: MediaLink,
    pub decision: AssetDecision,
}

/// One file to copy: `source` relative to the backup's root, `destination`
/// a file name inside the post's folder.
pub struct CopyJob {
    pub source: String,
    pub destination: String,
}

/// The result of lower-casing `s`.
pub uninterp spec fn lower_of(s: Seq<char>) -> Seq<char>;

/// Relies on str::to_lowercase: the lower-case form of the text, which depends
/// on its characters alone.
#[verifier::external_body]
fn lowercase(s: &str) -> (r: String)
    ensures
        r@ == lower_of(s@),
{
    s.to_lowercase()
}

/// How a URL is classified: `http` in any case first, then `/content`.
pub open spec fn kind_of(url: Seq<char>) -> LinkKind {
    if starts_with_ignore_case(url, "http"@) {
        LinkKind::Remote
    } else if starts_with(url, "/content"@) {
        LinkKind::Local
    } else {
        LinkKind::Unsupported
    }
}

/// The source path of a local reference, relative to the backup's root:
/// the URL with a `.` in front.
pub open spec fn relative_source_of(url: Seq<char>) -> Seq<char> {
    "."@ + url
}

/// The name `pic<index>.<extension>`.
pub open spec fn filename_with(index: nat, extension: Seq<char>) -> Seq<char> {
    "pic"@ + decimal(index) + "."@ + extension
}

/// The name under which the reference at `index` is copied: its extension
/// is lower-cased.
pub open spec fn new_filename_of(index: nat, extension: Seq<char>) -> Seq<char> {
    filename_with(index, lower_of(extension))
}

/// The minimal tag that points at the relocated copy `name`.
pub open spec fn replacement_tag_of(name: Seq<char>) -> Seq<char> {
    "<img src=\"./"@ + name + "\" alt=\"\" />"@
}

/// The decision for the reference at `index` with `url`, given what the
/// file system said of its source.
pub open spec fn decision_of(
    index: nat,
    url: Seq<char>,
    resolution: Option<Option<Seq<char>>>,
) -> DecisionView {
    match kind_of(url) {
        LinkKind::Remote => DecisionView::Remote,
        LinkKind::Unsupported => DecisionView::Unsupported,
        LinkKind::Local => match resolution {
            None => DecisionView::Failed(AssetResolutionError::SourceNotFound),
            Some(None) => DecisionView::Failed(AssetResolutionError::MissingExtension),
            Some(Some(ext)) => DecisionView::Local {
                source: relative_source_of(url),
                new_filename: new_filename_of(index, ext),
                replacement_tag: replacement_tag_of(new_filename_of(index, ext)),
            },
        },
    }
}

/// Classifies an image URL.
pub fn classify(url: &str) -> (r: LinkKind)
    ensures
        r == kind_of(url@),
{
    if has_prefix(url, "http", true) {
        LinkKind::Remote
    } else if has_prefix(url, "/content", false) {
        LinkKind::Local
    } else {
        LinkKind::Unsupported
    }
}

/// The source path of a local reference relative to the backup's root.
pub fn relative_source(url: &str) -> (r: String)
    ensures
        r@ == relative_source_of(url@),
{
    let mut s = String::from_str(".");
    s.append(url);
    s
}

/// The name `pic<index>.<extension>`, the extension taken as it is.
pub fn filename_with_extension(index: usize, extension: &str) -> (r: String)
    ensures
        r@ == filename_with(index as nat, extension@),
{
    let mut s = String::from_str("pic");
    let digits = decimal_string(index);
    s.append(digits.as_str());
    s.append(".");
    s.append(extension);
    s
}

/// The file name of the relocated copy of the reference at `index`.
pub fn new_filename(index: usize, extension: &str) -> (r: String)
    ensures
        r@ == new_filename_of(index as nat, extension@),
{
    let lower = lowercase(extension);
    filename_with_extension(index, lower.as_str())
}

/// The tag that replaces a relocated reference.
pub fn replacement_tag(name: &str) -> (r: String)
    ensures
        r@ == replacement_tag_of(name@),
{
    let mut s = String::from_str("<img src=\"./");
    s.append(name);
    s.append("\" alt=\"\" />");
    s
}

/// Decides what happens to the reference at `index`.
pub fn decide(index: usize, url: &str, resolution: &Resolution) -> (r: AssetDecision)
    ensures
        r@ == decision_of(index as nat, url@, resolution@),
{
    match classify(url) {
        LinkKind::Remote => AssetDecision::Remote,
        LinkKind::Unsupported => AssetDecision::Unsupported,
        LinkKind::Local => match resolution {
            Resolution::NotFound => AssetDecision::Failed(AssetResolutionError::SourceNotFound),
            Resolution::Found(None) => AssetDecision::Failed(
                AssetResolutionError::MissingExtension,
            ),
            Resolution::Found(Some(ext)) => {
                let name = new_filename(index, ext.as_str());
                let tag = replacement_tag(name.as_str());
                AssetDecision::Local { source: relative_source(url), new_filename: name, replacement_tag: tag }
            },
        },
    }
}

/// `plan` pairs each of `links`, in order, with the decision for its
/// ordinal and resolution.
pub open spec fn planned(plan: Seq<PlanEntry>, links: Seq<MediaLink>, resolutions: Seq<Resolution>) -> bool {
    &&& plan.len() == links.len()
    &&& forall|i: int|
        0 <= i < plan.len() ==> link_view(#[trigger] plan[i].link) == link_view(links[i])
            && plan[i].decision@ == decision_of(i as nat, links[i].url@, resolutions[i]@)
}

/// The copies that a plan asks for: one per relocated reference, in order.
pub open spec fn copies_of(plan: Seq<PlanEntry>) -> Seq<(Seq<char>, Seq<char>)>
    decreases plan.len(),
{
    if plan.len() == 0 {
        Seq::empty()
    } else {
        let rest = copies_of(plan.drop_last());
        match plan.last().decision@ {
            DecisionView::Local { source, new_filename, .. } => rest.push((source, new_filename)),
            _ => rest,
        }
    }
}

pub open spec fn job_view(j: CopyJob) -> (Seq<char>, Seq<char>) {
    (j.source@, j.destination@)
}

fn copy_link(l: &MediaLink) -> (r: MediaLink)
    ensures
        link_view(r) == link_view(*l),
{
    MediaLink { start: l.start, end: l.end, url: l.url.clone() }
}

/// Decides for each reference, in order, what happens to it; the ordinal of
/// a reference is its position among all of `links`.
pub fn plan_assets(links: &Vec<MediaLink>, resolutions: &Vec<Resolution>) -> (r: Vec<PlanEntry>)
    requires
        links@.len() == resolutions@.len(),
    ensures
        planned(r@, links@, resolutions@),
{
    let mut plan: Vec<PlanEntry> = Vec::new();
    let mut i: usize = 0;
    while i < links.len()
        invariant
            links@.len() == resolutions@.len(),
            0 <= i <= links@.len(),
            plan@.len() == i,
            forall|k: int|
                0 <= k < i ==> link_view(#[trigger] plan@[k].link) == link_view(links@[k])
                    && plan@[k].decision@ == decision_of(
                    k as nat,
                    links@[k].url@,
                    resolutions@[k]@,
                ),
        decreases links.len() - i,
    {
        let link = &links[i];
        let decision = decide(i, link.url.as_str(), &resolutions[i]);
        plan.push(PlanEntry { link: copy_link(link), decision });
        i = i + 1;
    }
    plan
}

/// The copies that `plan` asks for.
pub fn copy_jobs(plan: &Vec<PlanEntry>) -> (r: Vec<CopyJob>)
    ensures
        r@.map_values(|j: CopyJob| job_view(j)) == copies_of(plan@),
{
    let mut jobs: Vec<CopyJob> = Vec::new();
    let mut i: usize = 0;
    while i < plan.len()
        invariant
            0 <= i <= plan@.len(),
            jobs@.map_values(|j: CopyJob| job_view(j)) == copies_of(plan@.subrange(0, i as int)),
        decreases plan.len() - i,
    {
        let ghost prefix = plan@.subrange(0, i as int + 1);
        assert(prefix.drop_last() =~= plan@.subrange(0, i as int));
        match &plan[i].decision {
            AssetDecision::Local { source, new_filename, .. } => {
                let ghost before = jobs@;
                jobs.push(CopyJob { source: source.clone(), destination: new_filename.clone() });
                assert(jobs@.map_values(|j: CopyJob| job_view(j)) =~= before.map_values(
                    |j: CopyJob| job_view(j),
                ).push(job_view(jobs@.last())));
            },
            _ => {},
        }
        i = i + 1;
    }
    assert(plan@.subrange(0, i as int) =~= plan@);
    jobs
}

} // verus!
