//! Screenshot comparisons from the pixel-eagle service, turned into the
//! screenshot data the report records.
use vstd::prelude::*;

use crate::model::{ImageUrl, ScreenshotState, SnapshotViewerUrl};
use crate::report::ScreenshotData;

verus! {

/// A screenshot that a comparison lists as new or as unchanged.
pub struct ComparedScreenshot {
    pub name: String,
    pub hash: String,
}

/// A screenshot that a comparison lists as different.
pub struct DifferentScreenshot {
    pub name: String,
    pub hash: String,
    /// Whether the comparison finished and measured a difference of zero.
    pub diff_is_zero: bool,
}

/// A comparison between two runs of a pixel-eagle project.
pub struct Comparison {
    pub project_id: String,
    pub from: u32,
    pub to: u32,
    pub new: Vec<ComparedScreenshot>,
    pub unchanged: Vec<ComparedScreenshot>,
    pub diff: Vec<DifferentScreenshot>,
}

/// The decimal digit `d`.
pub open spec fn digit(d: nat) -> char {
    if d == 0 {
        '0'
    } else if d == 1 {
        '1'
    } else if d == 2 {
        '2'
    } else if d == 3 {
        '3'
    } else if d == 4 {
        '4'
    } else if d == 5 {
        '5'
    } else if d == 6 {
        '6'
    } else if d == 7 {
        '7'
    } else if d == 8 {
        '8'
    } else {
        '9'
    }
}

/// `n` written in decimal.
pub open spec fn decimal(n: nat) -> Seq<char>
    decreases n,
{
    if n < 10 {
        seq![digit(n)]
    } else {
        decimal(n / 10).push(digit(n % 10))
    }
}

/// Writes `n` in decimal.
pub fn decimal_string(n: u32) -> (r: Vec<char>)
    ensures
        r@ == decimal(n as nat),
    decreases n,
{
    let d = n % 10;
    let c = if d == 0 {
        '0'
    } else if d == 1 {
        '1'
    } else if d == 2 {
        '2'
    } else if d == 3 {
        '3'
    } else if d == 4 {
        '4'
    } else if d == 5 {
        '5'
    } else if d == 6 {
        '6'
    } else if d == 7 {
        '7'
    } else if d == 8 {
        '8'
    } else {
        '9'
    };
    if n < 10 {
        let mut v: Vec<char> = Vec::new();
        v.push(c);
        assert(v@ =~= seq![digit(n as nat)]);
        v
    } else {
        let mut v = decimal_string(n / 10);
        v.push(c);
        v
    }
}

/// The project's address on the service.
pub open spec fn project_address(project_id: Seq<char>) -> Seq<char> {
    "https://pixel-eagle.com/"@ + project_id + "/"@
}

/// The project's address on the service.
pub fn project_url(project_id: &str) -> (r: String)
    ensures
        r@ == project_address(project_id@),
{
    "https://pixel-eagle.com/".to_owned().concat(project_id).concat("/")
}

/// Where a new screenshot's image is.
pub open spec fn new_image(project_id: Seq<char>, hash: Seq<char>) -> Seq<char> {
    "https://pixel-eagle.com/files/"@ + project_id + "/screenshot/"@ + hash
}

/// Where an already stored screenshot's image is.
pub open spec fn stored_image(project_id: Seq<char>, hash: Seq<char>) -> Seq<char> {
    "https://pixel-eagle.com/"@ + project_id + "/screenshot/"@ + hash
}

/// Where the comparison of the screenshot `name` can be viewed.
pub open spec fn viewer_address(project_id: Seq<char>, from: u32, to: u32, name: Seq<char>) -> Seq<
    char,
> {
    "https://pixel-eagle.com/project/"@ + project_id + "/run/"@ + decimal(from as nat)
        + "/compare/"@ + decimal(to as nat) + "?screenshot="@ + name
}

/// `d` is the screenshot data with these fields and no tag.
pub open spec fn is_data(
    d: ScreenshotData,
    example: Seq<char>,
    image: Seq<char>,
    changed: ScreenshotState,
    diff_is_zero: bool,
    viewer: Seq<char>,
) -> bool {
    &&& d.example@ == example
    &&& d.screenshot@ == image
    &&& d.changed == changed
    &&& d.tag is None
    &&& d.diff_is_zero == diff_is_zero
    &&& d.snapshot_url@ == viewer
}

fn viewer_url(c: &Comparison, name: &String) -> (r: String)
    ensures
        r@ == viewer_address(c.project_id@, c.from, c.to, name@),
{
    let from = crate::text::string_of(&decimal_string(c.from));
    let to = crate::text::string_of(&decimal_string(c.to));
    "https://pixel-eagle.com/project/".to_owned().concat(c.project_id.as_str()).concat(
        "/run/",
    ).concat(from.as_str()).concat("/compare/").concat(to.as_str()).concat("?screenshot=").concat(
        name.as_str(),
    )
}

/// The screenshot data of a comparison: first the new screenshots (changed,
/// with no difference measured), then the unchanged ones, then the different
/// ones (changed; a difference of zero only where one was measured).
pub fn comparison_to_screenshot_data(comparison: &Comparison) -> (r: Vec<ScreenshotData>)
    ensures
        r@.len() == comparison.new@.len() + comparison.unchanged@.len() + comparison.diff@.len(),
        forall|i: int|
            0 <= i < comparison.new@.len() ==> is_data(
                #[trigger] r@[i],
                comparison.new@[i].name@,
                new_image(comparison.project_id@, comparison.new@[i].hash@),
                ScreenshotState::Changed,
                true,
                viewer_address(
                    comparison.project_id@,
                    comparison.from,
                    comparison.to,
                    comparison.new@[i].name@,
                ),
            ),
        forall|i: int|
            0 <= i < comparison.unchanged@.len() ==> is_data(
                #[trigger] r@[comparison.new@.len() + i],
                comparison.unchanged@[i].name@,
                stored_image(comparison.project_id@, comparison.unchanged@[i].hash@),
                ScreenshotState::Similar,
                true,
                viewer_address(
                    comparison.project_id@,
                    comparison.from,
                    comparison.to,
                    comparison.unchanged@[i].name@,
                ),
            ),
        forall|i: int|
            0 <= i < comparison.diff@.len() ==> is_data(
                #[trigger] r@[comparison.new@.len() + comparison.unchanged@.len() + i],
                comparison.diff@[i].name@,
                stored_image(comparison.project_id@, comparison.diff@[i].hash@),
                ScreenshotState::Changed,
                comparison.diff@[i].diff_is_zero,
                viewer_address(
                    comparison.project_id@,
                    comparison.from,
                    comparison.to,
                    comparison.diff@[i].name@,
                ),
            ),
{
    let c = comparison;
    let n1 = c.new.len();
    let n2 = c.unchanged.len();
    let mut r: Vec<ScreenshotData> = Vec::new();
    let mut i: usize = 0;
    while i < n1
        invariant
            n1 == c.new@.len(),
            i <= n1,
            r@.len() == i,
            forall|j: int|
                0 <= j < i ==> is_data(
                    #[trigger] r@[j],
                    c.new@[j].name@,
                    new_image(c.project_id@, c.new@[j].hash@),
                    ScreenshotState::Changed,
                    true,
                    viewer_address(c.project_id@, c.from, c.to, c.new@[j].name@),
                ),
        decreases n1 - i,
    {
        let s = &c.new[i];
        let image = "https://pixel-eagle.com/files/".to_owned().concat(c.project_id.as_str()).concat(
            "/screenshot/",
        ).concat(s.hash.as_str());
        r.push(
            ScreenshotData {
                example: s.name.clone(),
                screenshot: ImageUrl(image),
                changed: ScreenshotState::Changed,
                tag: None,
                diff_is_zero: true,
                snapshot_url: SnapshotViewerUrl(viewer_url(c, &s.name)),
            },
        );
        i += 1;
    }
    let mut i: usize = 0;
    while i < n2
        invariant
            n1 == c.new@.len(),
            n2 == c.unchanged@.len(),
            i <= n2,
            r@.len() == n1 + i,
            forall|j: int|
                0 <= j < n1 ==> is_data(
                    #[trigger] r@[j],
                    c.new@[j].name@,
                    new_image(c.project_id@, c.new@[j].hash@),
                    ScreenshotState::Changed,
                    true,
                    viewer_address(c.project_id@, c.from, c.to, c.new@[j].name@),
                ),
            forall|j: int|
                0 <= j < i ==> is_data(
                    #[trigger] r@[n1 + j],
                    c.unchanged@[j].name@,
                    stored_image(c.project_id@, c.unchanged@[j].hash@),
                    ScreenshotState::Similar,
                    true,
                    viewer_address(c.project_id@, c.from, c.to, c.unchanged@[j].name@),
                ),
        decreases n2 - i,
    {
        let s = &c.unchanged[i];
        let image = "https://pixel-eagle.com/".to_owned().concat(c.project_id.as_str()).concat(
            "/screenshot/",
        ).concat(s.hash.as_str());
        r.push(
            ScreenshotData {
                example: s.name.clone(),
                screenshot: ImageUrl(image),
                changed: ScreenshotState::Similar,
                tag: None,
                diff_is_zero: true,
                snapshot_url: SnapshotViewerUrl(viewer_url(c, &s.name)),
            },
        );
        assert(r@[n1 + i as int] == r@.last());
        i += 1;
    }
    let n3 = c.diff.len();
    let mut i: usize = 0;
    while i < n3
        invariant
            n1 == c.new@.len(),
            n2 == c.unchanged@.len(),
            n3 == c.diff@.len(),
            i <= n3,
            r@.len() == n1 + n2 + i,
            forall|j: int|
                0 <= j < n1 ==> is_data(
                    #[trigger] r@[j],
                    c.new@[j].name@,
                    new_image(c.project_id@, c.new@[j].hash@),
                    ScreenshotState::Changed,
                    true,
                    viewer_address(c.project_id@, c.from, c.to, c.new@[j].name@),
                ),
            forall|j: int|
                0 <= j < n2 ==> is_data(
                    #[trigger] r@[n1 + j],
                    c.unchanged@[j].name@,
                    stored_image(c.project_id@, c.unchanged@[j].hash@),
                    ScreenshotState::Similar,
                    true,
                    viewer_address(c.project_id@, c.from, c.to, c.unchanged@[j].name@),
                ),
            forall|j: int|
                0 <= j < i ==> is_data(
                    #[trigger] r@[n1 + n2 + j],
                    c.diff@[j].name@,
                    stored_image(c.project_id@, c.diff@[j].hash@),
                    ScreenshotState::Changed,
                    c.diff@[j].diff_is_zero,
                    viewer_address(c.project_id@, c.from, c.to, c.diff@[j].name@),
                ),
        decreases n3 - i,
    {
        let s = &c.diff[i];
        let image = "https://pixel-eagle.com/".to_owned().concat(c.project_id.as_str()).concat(
            "/screenshot/",
        ).concat(s.hash.as_str());
        r.push(
            ScreenshotData {
                example: s.name.clone(),
                screenshot: ImageUrl(image),
                changed: ScreenshotState::Changed,
                tag: None,
                diff_is_zero: s.diff_is_zero,
                snapshot_url: SnapshotViewerUrl(viewer_url(c, &s.name)),
            },
        );
        assert(r@[n1 + n2 + i as int] == r@.last());
        i += 1;
    }
    r
}

} // verus!
