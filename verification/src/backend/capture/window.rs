//! Finding the window to capture, and taking a single picture of it.

use vstd::prelude::*;

use crate::backend::capture::record::frame_interval;
use crate::util::clock::local_stamp;
use crate::util::text::{contains_text, lowercase, substitute_chars};
use crate::util::{clock, text};

verus! {

/// What is to be done with a frame.
#[derive(Debug, Clone, Copy, PartialEq, Eq, Structural)]
pub enum FrameAction {
    /// Save it as a picture.
    Save,
    /// Leave it alone.
    Ignore,
}

/// Takes one picture of a window.
pub struct WindowHandler {
    filename: String,
    saved: bool,
}

impl WindowHandler {
    /// Where the picture goes.
    pub closed spec fn target(&self) -> Seq<char> {
        self.filename@
    }

    /// The picture has been taken.
    pub closed spec fn is_saved(&self) -> bool {
        self.saved
    }

    /// A handler that has yet to take its picture.
    pub fn new(filename: String) -> (handler: WindowHandler)
        ensures
            handler.target() == filename@,
            !handler.is_saved(),
    {
        WindowHandler { filename, saved: false }
    }

    /// Where the picture goes.
    pub fn filename(&self) -> (name: &str)
        ensures
            name@ == self.target(),
    {
        self.filename.as_str()
    }

    /// The first frame is saved; every frame after that is left alone.
    pub fn on_frame_arrived(&self) -> (action: FrameAction)
        ensures
            action == if self.is_saved() {
                FrameAction::Ignore
            } else {
                FrameAction::Save
            },
    {
        if !self.saved {
            FrameAction::Save
        } else {
            FrameAction::Ignore
        }
    }

    /// Takes note of how saving a frame went. A picture that was saved ends the capture; one
    /// that was not is an error, and the next frame is tried.
    pub fn on_save<E>(&mut self, result: Result<(), E>) -> (stop: Result<(), E>)
        requires
            !old(self).is_saved(),
        ensures
            stop == result,
            final(self).target() == old(self).target(),
            final(self).is_saved() == (result is Ok),
    {
        if result.is_ok() {
            self.saved = true;
        }
        result
    }
}

/// The window that a search found. Whatever went wrong, what is said is that there is none.
pub fn window_detect<W, E>(found: Result<W, E>) -> (window: Result<W, String>)
    ensures
        found matches Ok(w) ==> window == Ok::<W, String>(w),
        found is Err ==> (window matches Err(e) && e@ == "No target window found"@),
{
    match found {
        Ok(window) => Ok(window),
        Err(_) => Err("No target window found".to_owned()),
    }
}

/// What a picture of a window is taken with.
pub struct ScreenshotPlan {
    /// Name of the picture file.
    pub filename: String,
    /// Least time between two frames, in nanoseconds.
    pub frame_interval: u64,
}

/// The plan for a picture taken at `stamp`.
pub fn screenshot_plan(stamp: &str, fps: u32) -> (plan: ScreenshotPlan)
    requires
        fps > 0,
    ensures
        plan.filename@ == "screenshot_"@ + stamp@ + ".png"@,
        plan.frame_interval == 1_000_000_000int / (fps as int),
{
    let mut filename = "screenshot_".to_owned();
    filename.append(stamp);
    filename.append(".png");
    ScreenshotPlan { filename, frame_interval: frame_interval(fps) }
}

/// The plan for a picture taken now.
pub fn window_capture(fps: u32) -> (plan: ScreenshotPlan)
    requires
        fps > 0,
    ensures
        exists|stamp: Seq<char>| #[trigger]
            clock::is_stamp(stamp) && plan.filename@ == "screenshot_"@ + stamp + ".png"@,
        plan.frame_interval == 1_000_000_000int / (fps as int),
{
    let stamp = local_stamp();
    screenshot_plan(stamp.as_str(), fps)
}

/// The characters that file names must not hold.
pub open spec fn forbidden_chars() -> Seq<char> {
    seq!['|', '\\', ':', '/', '*', '?', '"', '<', '>']
}

/// `name` with an underscore in place of every character that a file name must not hold.
pub fn _sanitize_filename(name: &str) -> (clean: String)
    ensures
        clean@ == text::substituted(name@, forbidden_chars(), '_'),
{
    let forbidden: Vec<char> = vec!['|', '\\', ':', '/', '*', '?', '"', '<', '>'];
    assert(forbidden@ =~= forbidden_chars());
    substitute_chars(name, &forbidden, '_')
}

/// Whether a keyword stands in one of two texts, all of them in lower case already.
pub fn match_lowercase(keyword: &str, win_title: &str, app_name: &str) -> (found: bool)
    ensures
        found == (text::occurs_in(win_title@, keyword@) || text::occurs_in(app_name@, keyword@)),
{
    contains_text(win_title, keyword) || contains_text(app_name, keyword)
}

/// In small letters, `keyword` stands in one of two texts.
pub open spec fn matches_in_ascii(
    keyword: Seq<char>,
    win_title: Seq<char>,
    app_name: Seq<char>,
) -> bool {
    ||| text::occurs_in(text::ascii_lowercased(win_title), text::ascii_lowercased(keyword))
    ||| text::occurs_in(text::ascii_lowercased(app_name), text::ascii_lowercased(keyword))
}

/// Whether `keyword` stands in the title of a window or in the name of its application,
/// whatever the case of the letters.
pub fn _match_keyword(keyword: &str, win_title: &str, app_name: &str) -> (found: bool)
    ensures
        found == (text::occurs_in(text::lowercased(win_title@), text::lowercased(keyword@))
            || text::occurs_in(text::lowercased(app_name@), text::lowercased(keyword@))),
        text::all_ascii(keyword@) && text::all_ascii(win_title@) && text::all_ascii(app_name@)
            ==> found == matches_in_ascii(keyword@, win_title@, app_name@),
{
    let lower = lowercase(keyword);
    let title = lowercase(win_title);
    let app = lowercase(app_name);
    match_lowercase(lower.as_str(), title.as_str(), app.as_str())
}

/// The case of the letters of ASCII does not matter for a match, and what stands in a text as it
/// is matches.
pub proof fn lemma_matching_ignores_case(
    keyword: Seq<char>,
    win_title: Seq<char>,
    app_name: Seq<char>,
    other_keyword: Seq<char>,
    other_title: Seq<char>,
    other_name: Seq<char>,
)
    requires
        text::same_but_for_case(keyword, other_keyword),
        text::same_but_for_case(win_title, other_title),
        text::same_but_for_case(app_name, other_name),
    ensures
        matches_in_ascii(keyword, win_title, app_name) == matches_in_ascii(
            other_keyword,
            other_title,
            other_name,
        ),
        text::occurs_in(win_title, keyword) || text::occurs_in(app_name, keyword)
            ==> matches_in_ascii(keyword, win_title, app_name),
{
    text::lemma_case_does_not_matter(keyword, other_keyword);
    text::lemma_case_does_not_matter(win_title, other_title);
    text::lemma_case_does_not_matter(app_name, other_name);
    if text::occurs_in(win_title, keyword) {
        text::lemma_lowercase_keeps_occurrences(win_title, keyword);
    }
    if text::occurs_in(app_name, keyword) {
        text::lemma_lowercase_keeps_occurrences(app_name, keyword);
    }
}

/// A name that has been cleaned holds no forbidden character, and cleaning it again changes
/// nothing.
pub proof fn lemma_sanitized_is_clean(name: Seq<char>)
    ensures
        ({
            let clean = text::substituted(name, forbidden_chars(), '_');
            &&& clean.len() == name.len()
            &&& forall|i: int|
                0 <= i < clean.len() ==> !forbidden_chars().contains(#[trigger] clean[i])
            &&& text::substituted(clean, forbidden_chars(), '_') == clean
        }),
{
    let clean = text::substituted(name, forbidden_chars(), '_');
    assert(!forbidden_chars().contains('_'));
    assert(text::substituted(clean, forbidden_chars(), '_') =~= clean);
}

/// The characters that are put out are these nine, and every other one stays as it is.
pub proof fn lemma_other_characters_stay(name: Seq<char>)
    ensures
        forbidden_chars() == "|\\:/*?\"<>"@,
        ({
            let clean = text::substituted(name, forbidden_chars(), '_');
            &&& clean.len() == name.len()
            &&& forall|i: int|
                0 <= i < name.len() ==> #[trigger] clean[i] == if "|\\:/*?\"<>"@.contains(name[i]) {
                    '_'
                } else {
                    name[i]
                }
        }),
{
    reveal_strlit("|\\:/*?\"<>");
    assert(forbidden_chars() =~= "|\\:/*?\"<>"@);
}

/// A keyword matches only where it stands in the title or in the name, but for the case of the
/// letters of ASCII.
pub proof fn lemma_a_match_stands_in_the_text(
    keyword: Seq<char>,
    win_title: Seq<char>,
    app_name: Seq<char>,
)
    requires
        matches_in_ascii(keyword, win_title, app_name),
    ensures
        text::stands_whatever_the_case(win_title, keyword) || text::stands_whatever_the_case(
            app_name,
            keyword,
        ),
{
    if text::occurs_in(text::ascii_lowercased(win_title), text::ascii_lowercased(keyword)) {
        text::lemma_lowercase_finds_whatever_the_case(win_title, keyword);
    } else {
        text::lemma_lowercase_finds_whatever_the_case(app_name, keyword);
    }
}

} // verus!
