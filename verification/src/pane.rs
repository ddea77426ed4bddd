//! What the library knows of one pane: its identity, size, title, working directory
//! and whether its shell has exited; and how a pane is named.
use vstd::prelude::*;

use crate::cursor::{decscusr_style, CursorStyle};
use crate::size::PaneSize;
use crate::text::{from_utf8_lossy, str_to_string, utf8_lossy};

verus! {

/// The final component of a path with these characters, as `std::path::Path::file_name`
/// gives it (`None` for a path such as `/` or one ending in `..`).
pub uninterp spec fn file_name(path: Seq<char>) -> Option<Seq<char>>;

/// Calls `std::path::Path::file_name` on `path`; the result is named `file_name`. A final
/// component, where there is one, is never empty.
#[verifier::external_body]
fn path_file_name(path: &str) -> (r: Option<String>)
    ensures
        r is Some <==> file_name(path@) is Some,
        r matches Some(n) ==> file_name(path@) == Some(n@) && n@.len() > 0,
{
    match std::path::Path::new(path).file_name() {
        Some(n) => Some(n.to_string_lossy().into_owned()),
        None => None,
    }
}

/// The name a path gives a tab: its final component, or `shell` where it has none.
pub open spec fn basename(path: Seq<char>) -> Seq<char> {
    match file_name(path) {
        Some(n) => n,
        None => "shell"@,
    }
}

/// The final component of `path`, or `shell` where it has none; never empty.
pub fn path_basename(path: &str) -> (r: String)
    ensures
        r@ == basename(path@),
        r@.len() > 0,
{
    match path_file_name(path) {
        Some(n) => n,
        None => {
            proof {
                reveal_strlit("shell");
            }
            str_to_string("shell")
        },
    }
}

/// The name a pane gives itself: its window title where one was set and is not empty,
/// else the base name of the directory it started in.
pub open spec fn auto_name(title: Option<Seq<char>>, cwd: Seq<char>) -> Seq<char> {
    match title {
        Some(t) => if t.len() > 0 {
            t
        } else {
            basename(cwd)
        },
        None => basename(cwd),
    }
}

/// One pane of a tab. The terminal behind it is held elsewhere, under `id`.
pub struct Pane {
    /// Identifies the terminal behind this pane.
    pub id: u64,
    pub width: u16,
    pub height: u16,
    /// The latest window title the pane's program set (OSC 2), if any.
    pub title: Option<String>,
    /// Whether the pane's shell has exited.
    pub exited: bool,
    /// The directory the pane's shell started in.
    pub cwd: String,
}

/// The title as characters, if any.
pub open spec fn title_view(title: Option<String>) -> Option<Seq<char>> {
    match title {
        Some(t) => Some(t@),
        None => None,
    }
}

impl Pane {
    /// The directory the pane's shell started in.
    pub open spec fn spec_cwd(&self) -> Seq<char> {
        self.cwd@
    }

    /// The name this pane gives itself.
    pub open spec fn spec_auto_name(&self) -> Seq<char> {
        auto_name(title_view(self.title), self.spec_cwd())
    }

    /// A pane of the given size whose shell runs in `cwd`, with no title yet.
    pub fn new(id: u64, cwd: &str, size: PaneSize) -> (r: Self)
        ensures
            r.id == id,
            r.width == size.spec_cols(),
            r.height == size.spec_rows(),
            r.title is None,
            !r.exited,
            r.spec_cwd() == cwd@,
    {
        Pane {
            id,
            width: size.cols(),
            height: size.rows(),
            title: None,
            exited: false,
            cwd: str_to_string(cwd),
        }
    }

    pub fn is_exited(&self) -> (r: bool)
        ensures
            r == self.exited,
    {
        self.exited
    }

    /// The window title if one was set and is not empty, else the base name of the
    /// starting directory.
    pub fn get_auto_name(&self) -> (r: String)
        ensures
            r@ == self.spec_auto_name(),
    {
        match &self.title {
            Some(t) => {
                if t.as_str().unicode_len() > 0 {
                    t.clone()
                } else {
                    path_basename(self.cwd.as_str())
                }
            },
            None => path_basename(self.cwd.as_str()),
        }
    }

    /// Records a new size for the pane.
    pub fn resize(&mut self, size: PaneSize)
        ensures
            final(self).width == size.spec_cols(),
            final(self).height == size.spec_rows(),
            final(self).id == old(self).id,
            final(self).title == old(self).title,
            final(self).exited == old(self).exited,
            final(self).cwd == old(self).cwd,
    {
        self.width = size.cols();
        self.height = size.rows();
    }
}

/// The first parameter of a CSI sequence, or 0 where there is none.
pub open spec fn first_csi_param(params: Seq<&[u16]>) -> u16 {
    if params.len() > 0 && params[0]@.len() > 0 {
        params[0]@[0]
    } else {
        0
    }
}

/// What a pane's terminal reports back: the window title (OSC 2) and the cursor shape
/// (DECSCUSR).
pub struct TitleCallbacks {
    pub title: Option<String>,
    pub cursor_style: CursorStyle,
}

impl Default for TitleCallbacks {
    fn default() -> (r: Self)
        ensures
            r.title is None,
            r.cursor_style == CursorStyle::Default,
    {
        TitleCallbacks { title: None, cursor_style: CursorStyle::Default }
    }
}

impl TitleCallbacks {
    /// Records a window title, decoding its bytes as UTF-8 with replacement.
    pub fn set_window_title(&mut self, title: &[u8])
        ensures
            final(self).title matches Some(t) && t@ == utf8_lossy(title@),
            final(self).cursor_style == old(self).cursor_style,
    {
        self.title = Some(from_utf8_lossy(title));
    }

    /// Handles a CSI sequence the terminal does not implement: `CSI Ps SP q` (DECSCUSR)
    /// sets the cursor shape; everything else is ignored.
    pub fn unhandled_csi(&mut self, i1: Option<u8>, i2: Option<u8>, params: &[&[u16]], c: char)
        ensures
            final(self).title == old(self).title,
            final(self).cursor_style == if c == 'q' && i1 == Some(32u8) {
                decscusr_style(first_csi_param(params@))
            } else {
                old(self).cursor_style
            },
    {
        if c == 'q' && i1 == Some(32u8) {
            let ps: u16 = if params.len() > 0 && params[0].len() > 0 {
                params[0][0]
            } else {
                0
            };
            self.cursor_style = CursorStyle::from_decscusr(ps);
        }
    }
}

} // verus!
