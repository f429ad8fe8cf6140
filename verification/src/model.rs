//! The report's vocabulary: platforms, outcome kinds, examples and screenshots.
use vstd::prelude::*;

use crate::table::Key;

verus! {

/// The category an example belongs to (its directory in the examples tree).
#[derive(Debug, Clone)]
pub struct ExampleCategory(pub String);

/// Where a screenshot image can be fetched.
#[derive(Debug, Clone)]
pub struct ImageUrl(pub String);

/// Where a screenshot comparison can be looked at.
#[derive(Debug, Clone)]
pub struct SnapshotViewerUrl(pub String);

impl View for ExampleCategory {
    type V = Seq<char>;

    open spec fn view(&self) -> Seq<char> {
        self.0@
    }
}

impl View for ImageUrl {
    type V = Seq<char>;

    open spec fn view(&self) -> Seq<char> {
        self.0@
    }
}

impl View for SnapshotViewerUrl {
    type V = Seq<char>;

    open spec fn view(&self) -> Seq<char> {
        self.0@
    }
}

/// How a screenshot compares with the one it is checked against.
#[derive(Clone, Copy, Debug, PartialEq, Eq, Structural)]
pub enum ScreenshotState {
    Similar,
    Changed,
}

/// What a result file of a run reports.
#[derive(Clone, Copy, Debug, PartialEq, Eq, Structural, Hash)]
pub enum Kind {
    Successes,
    Failures,
    NoScreenshots,
    PixelEagle,
}

impl View for Kind {
    type V = Kind;

    open spec fn view(&self) -> Kind {
        *self
    }
}

/// The platform a result was obtained on.
#[derive(Debug)]
pub enum Platform {
    Linux,
    Macos,
    Windows,
    Mobile,
    Tag(String),
}

/// A platform as a mathematical value.
pub enum PlatformView {
    Linux,
    Macos,
    Windows,
    Mobile,
    Tag(Seq<char>),
}

impl View for Platform {
    type V = PlatformView;

    open spec fn view(&self) -> PlatformView {
        match self {
            Platform::Linux => PlatformView::Linux,
            Platform::Macos => PlatformView::Macos,
            Platform::Windows => PlatformView::Windows,
            Platform::Mobile => PlatformView::Mobile,
            Platform::Tag(t) => PlatformView::Tag(t@),
        }
    }
}

/// The name under which a platform is shown.
pub open spec fn platform_name(p: PlatformView) -> Seq<char> {
    match p {
        PlatformView::Linux => "Linux"@,
        PlatformView::Macos => "macOS"@,
        PlatformView::Windows => "Windows"@,
        PlatformView::Mobile => "Mobile"@,
        PlatformView::Tag(t) => t,
    }
}

/// The platform that a platform name in a file name stands for.
pub open spec fn parse_platform(s: Seq<char>) -> Option<PlatformView> {
    if s == "Linux"@ {
        Some(PlatformView::Linux)
    } else if s == "macOS"@ {
        Some(PlatformView::Macos)
    } else if s == "Windows"@ {
        Some(PlatformView::Windows)
    } else if s == "mobile"@ {
        Some(PlatformView::Mobile)
    } else {
        None
    }
}

/// The kind that a kind name in a file name stands for.
pub open spec fn parse_kind(s: Seq<char>) -> Option<Kind> {
    if s == "successes"@ {
        Some(Kind::Successes)
    } else if s == "failures"@ {
        Some(Kind::Failures)
    } else if s == "no_screenshots"@ {
        Some(Kind::NoScreenshots)
    } else if s == "pixeleagle"@ {
        Some(Kind::PixelEagle)
    } else {
        None
    }
}

impl Platform {
    /// The name under which the platform is shown.
    pub fn to_string(&self) -> (r: String)
        ensures
            r@ == platform_name(self@),
    {
        match self {
            Platform::Linux => "Linux".to_owned(),
            Platform::Macos => "macOS".to_owned(),
            Platform::Windows => "Windows".to_owned(),
            Platform::Mobile => "Mobile".to_owned(),
            Platform::Tag(tag) => tag.clone(),
        }
    }

    /// Reads a platform name as it stands in a result file name; anything
    /// else is handed back as the error.
    pub fn from_str(s: &str) -> (r: Result<Platform, String>)
        ensures
            match r {
                Ok(p) => parse_platform(s@) == Some(p@),
                Err(e) => parse_platform(s@) is None && e@ == s@,
            },
    {
        let owned = s.to_owned();
        if owned == "Linux".to_owned() {
            Ok(Platform::Linux)
        } else if owned == "macOS".to_owned() {
            Ok(Platform::Macos)
        } else if owned == "Windows".to_owned() {
            Ok(Platform::Windows)
        } else if owned == "mobile".to_owned() {
            Ok(Platform::Mobile)
        } else {
            Err(owned)
        }
    }

}

impl Clone for Platform {
    fn clone(&self) -> (r: Platform)
        ensures
            r@ == self@,
    {
        match self {
            Platform::Linux => Platform::Linux,
            Platform::Macos => Platform::Macos,
            Platform::Windows => Platform::Windows,
            Platform::Mobile => Platform::Mobile,
            Platform::Tag(tag) => Platform::Tag(tag.clone()),
        }
    }
}

/// Two platforms are equal when they are the same variant with the same tag.
impl PartialEq for Platform {
    fn eq(&self, other: &Self) -> (r: bool) {
        self.same_key(other)
    }
}

impl Eq for Platform {}

impl vstd::std_specs::cmp::PartialEqSpecImpl for Platform {
    open spec fn obeys_eq_spec() -> bool {
        true
    }

    open spec fn eq_spec(&self, other: &Platform) -> bool {
        self@ == other@
    }
}

impl Key for Platform {
    fn same_key(&self, other: &Self) -> (b: bool) {
        match (self, other) {
            (Platform::Linux, Platform::Linux) => true,
            (Platform::Macos, Platform::Macos) => true,
            (Platform::Windows, Platform::Windows) => true,
            (Platform::Mobile, Platform::Mobile) => true,
            (Platform::Tag(a), Platform::Tag(b)) => *a == *b,
            _ => false,
        }
    }

    fn copy_key(&self) -> (r: Self) {
        self.clone()
    }
}

impl Kind {
    /// Reads a kind name as it stands in a result file name; anything else is
    /// handed back as the error.
    pub fn from_str(s: &str) -> (r: Result<Kind, String>)
        ensures
            match r {
                Ok(k) => parse_kind(s@) == Some(k),
                Err(e) => parse_kind(s@) is None && e@ == s@,
            },
    {
        let owned = s.to_owned();
        if owned == "successes".to_owned() {
            Ok(Kind::Successes)
        } else if owned == "failures".to_owned() {
            Ok(Kind::Failures)
        } else if owned == "no_screenshots".to_owned() {
            Ok(Kind::NoScreenshots)
        } else if owned == "pixeleagle".to_owned() {
            Ok(Kind::PixelEagle)
        } else {
            Err(owned)
        }
    }

    /// Whether a result file of this kind lists examples, one per line.
    pub fn lists_examples(&self) -> (r: bool)
        ensures
            r == (*self != Kind::PixelEagle),
    {
        match self {
            Kind::PixelEagle => false,
            _ => true,
        }
    }
}

/// An example, known by its category and name; `flaky` is not part of its identity.
#[derive(Debug, Clone)]
pub struct Example {
    pub name: String,
    pub category: ExampleCategory,
    pub flaky: bool,
}

/// Two examples are the same example when their names and categories agree.
impl PartialEq for Example {
    fn eq(&self, other: &Self) -> (r: bool) {
        self.name == other.name && self.category.0 == other.category.0
    }
}

impl Eq for Example {}

impl vstd::std_specs::cmp::PartialEqSpecImpl for Example {
    open spec fn obeys_eq_spec() -> bool {
        true
    }

    open spec fn eq_spec(&self, other: &Example) -> bool {
        self.name@ == other.name@ && self.category@ == other.category@
    }
}

/// The identity of an example: its category and its name.
pub struct ExampleId {
    pub category: String,
    pub name: String,
}

impl View for ExampleId {
    type V = (Seq<char>, Seq<char>);

    open spec fn view(&self) -> (Seq<char>, Seq<char>) {
        (self.category@, self.name@)
    }
}

impl Key for ExampleId {
    fn same_key(&self, other: &Self) -> (b: bool) {
        self.category == other.category && self.name == other.name
    }

    fn copy_key(&self) -> (r: Self) {
        ExampleId { category: self.category.clone(), name: self.name.clone() }
    }
}

/// A screenshot of an example on a platform: the image, how it compares, and
/// where the comparison can be viewed.
pub struct Shot {
    pub image: ImageUrl,
    pub state: ScreenshotState,
    pub viewer: SnapshotViewerUrl,
}

impl View for Shot {
    type V = (Seq<char>, ScreenshotState, Seq<char>);

    open spec fn view(&self) -> (Seq<char>, ScreenshotState, Seq<char>) {
        (self.image@, self.state, self.viewer@)
    }
}

} // verus!
