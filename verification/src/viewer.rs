//! The image viewer's controls: its theme, the rotation and flips applied
//! to the picture, the crop settings, and how each message of its window
//! changes them.
use vstd::prelude::*;

use crate::text::chars_of;

verus! {

/// The title a picture is shown under: the file name of its path, else
/// `Imagen`.
pub open spec fn picture_title_of(path: Seq<char>) -> Seq<char> {
    match crate::paths::file_name(path) {
        Some(n) => n,
        None => "Imagen"@,
    }
}

pub fn picture_title(path: &str) -> (r: String)
    ensures
        r@ == picture_title_of(path@),
{
    match crate::paths::file_name_of(&chars_of(path)) {
        Some(n) => crate::text::string_from(&n),
        None => crate::text::string_from(&chars_of("Imagen")),
    }
}

/// The proportions a crop keeps.
#[derive(Debug, Clone, Copy, PartialEq, Eq, Structural)]
pub enum AspectRatio {
    Free,
    Original,
    Square,
    Ratio5x4,
    Ratio4x3,
    Ratio3x2,
    Ratio16x9,
}

#[derive(Debug, Clone, Copy, PartialEq, Eq, Structural)]
pub enum Orientation {
    Landscape,
    Portrait,
}

#[derive(Debug, Clone, Copy, PartialEq, Eq, Structural)]
pub enum ViewerTheme {
    Light,
    Dark,
}

/// The name under which a theme is stored.
pub open spec fn theme_key(t: ViewerTheme) -> Seq<char> {
    match t {
        ViewerTheme::Light => "light"@,
        ViewerTheme::Dark => "dark"@,
    }
}

/// The theme stored under a name: `light` is the light theme, anything
/// else the dark one.
pub open spec fn theme_of_key(key: Seq<char>) -> ViewerTheme {
    if key == "light"@ {
        ViewerTheme::Light
    } else {
        ViewerTheme::Dark
    }
}

impl ViewerTheme {
    pub fn key(&self) -> (r: &'static str)
        ensures
            r@ == theme_key(*self),
    {
        match self {
            ViewerTheme::Light => "light",
            ViewerTheme::Dark => "dark",
        }
    }

    pub fn from_key(key: &str) -> (r: ViewerTheme)
        ensures
            r == theme_of_key(key@),
    {
        proof {
            reveal_strlit("light");
        }
        let v = chars_of(key);
        if v.len() == 5 && v[0] == 'l' && v[1] == 'i' && v[2] == 'g' && v[3] == 'h' && v[4] == 't' {
            assert(key@ =~= "light"@);
            ViewerTheme::Light
        } else {
            assert(key@ != "light"@) by {
                if key@ == "light"@ {
                    assert(v@ =~= "light"@);
                }
            }
            ViewerTheme::Dark
        }
    }
}

/// A theme read back from the name it is stored under is the same theme.
pub proof fn lemma_theme_key_round_trip(t: ViewerTheme)
    ensures
        theme_of_key(theme_key(t)) == t,
{
    reveal_strlit("light");
    reveal_strlit("dark");
    if t == ViewerTheme::Dark {
        assert(theme_key(t) != "light"@) by {
            assert(theme_key(t).len() != "light"@.len());
        }
    }
}

/// Rust's remainder of `a` by a positive `m`, which takes the sign of `a`.
pub open spec fn rem_toward_zero(a: int, m: int) -> int {
    if a >= 0 {
        a % m
    } else {
        -((-a) % m)
    }
}

/// The angle after a clockwise quarter turn.
pub open spec fn turned_cw(r: int) -> int {
    rem_toward_zero(r + 90, 360)
}

/// The angle after a counter-clockwise quarter turn.
pub open spec fn turned_ccw(r: int) -> int {
    rem_toward_zero(r - 90, 360)
}

/// How many clockwise quarter turns the picture is drawn with for a stored
/// angle: 90 and -270 are one, 180 and -180 two, 270 and -90 three; any
/// other angle draws it unturned.
pub open spec fn turns_of(r: int) -> int {
    if r == 90 || r == -270 {
        1
    } else if r == 180 || r == -180 {
        2
    } else if r == 270 || r == -90 {
        3
    } else {
        0
    }
}

/// An angle the viewer can hold: a multiple of a quarter turn, short of a
/// full turn either way.
pub open spec fn is_quarter_angle(r: int) -> bool {
    -360 < r < 360 && r % 90 == 0
}

pub fn quarter_turns(rotation: i32) -> (n: u8)
    ensures
        n == turns_of(rotation as int),
{
    if rotation == 90 || rotation == -270 {
        1
    } else if rotation == 180 || rotation == -180 {
        2
    } else if rotation == 270 || rotation == -90 {
        3
    } else {
        0
    }
}

/// What the viewer shows and how: the picture's name and path, the theme,
/// the turns and flips, and the crop settings. The decoded picture itself
/// and its crop rectangle stay with the window.
#[derive(Debug, Clone)]
pub struct ViewerState {
    pub image_path: Option<String>,
    pub title: String,
    pub theme: ViewerTheme,
    pub rotation: i32,
    pub flip_h: bool,
    pub flip_v: bool,
    pub crop_enabled: bool,
    pub aspect_ratio: AspectRatio,
    pub orientation: Orientation,
}

impl ViewerState {
    /// A viewer with no picture, dark, unturned and unflipped, with a free
    /// landscape crop.
    pub fn new() -> (s: ViewerState)
        ensures
            s.image_path is None,
            s.title@ == Seq::<char>::empty(),
            s.theme == ViewerTheme::Dark,
            s.rotation == 0,
            !s.flip_h,
            !s.flip_v,
            !s.crop_enabled,
            s.aspect_ratio == AspectRatio::Free,
            s.orientation == Orientation::Landscape,
    {
        ViewerState {
            image_path: None,
            title: String::new(),
            theme: ViewerTheme::Dark,
            rotation: 0,
            flip_h: false,
            flip_v: false,
            crop_enabled: false,
            aspect_ratio: AspectRatio::Free,
            orientation: Orientation::Landscape,
        }
    }

    /// A new picture was loaded from `path`: its name becomes the title and
    /// the turns and flips are undone.
    pub fn image_loaded(&mut self, path: String, title: String)
        ensures
            final(self).image_path == Some(path),
            final(self).title == title,
            final(self).rotation == 0,
            !final(self).flip_h,
            !final(self).flip_v,
            final(self).theme == old(self).theme,
            final(self).crop_enabled == old(self).crop_enabled,
            final(self).aspect_ratio == old(self).aspect_ratio,
            final(self).orientation == old(self).orientation,
    {
        self.title = title;
        self.image_path = Some(path);
        self.rotation = 0;
        self.flip_h = false;
        self.flip_v = false;
    }

    pub fn rotate_cw(&mut self)
        requires
            old(self).rotation <= i32::MAX - 90,
        ensures
            final(self).rotation == turned_cw(old(self).rotation as int),
            *final(self) == (ViewerState { rotation: final(self).rotation, ..*old(self) }),
    {
        let r: i64 = self.rotation as i64 + 90;
        let t: i64 = if r >= 0 {
            r % 360
        } else {
            -((-r) % 360)
        };
        self.rotation = t as i32;
    }

    pub fn rotate_ccw(&mut self)
        requires
            old(self).rotation >= i32::MIN + 90,
        ensures
            final(self).rotation == turned_ccw(old(self).rotation as int),
            *final(self) == (ViewerState { rotation: final(self).rotation, ..*old(self) }),
    {
        let r: i64 = self.rotation as i64 - 90;
        let t: i64 = if r >= 0 {
            r % 360
        } else {
            -((-r) % 360)
        };
        self.rotation = t as i32;
    }

    pub fn toggle_flip_h(&mut self)
        ensures
            *final(self) == (ViewerState { flip_h: !old(self).flip_h, ..*old(self) }),
    {
        self.flip_h = !self.flip_h;
    }

    pub fn toggle_flip_v(&mut self)
        ensures
            *final(self) == (ViewerState { flip_v: !old(self).flip_v, ..*old(self) }),
    {
        self.flip_v = !self.flip_v;
    }
}

/// Turning keeps an angle a quarter angle, and each quarter turn moves the
/// drawn picture by one quarter turn: clockwise forward, counter-clockwise
/// back. So one turn each way draws the picture as before.
pub proof fn lemma_quarter_turns(r: int)
    requires
        is_quarter_angle(r),
    ensures
        is_quarter_angle(turned_cw(r)),
        is_quarter_angle(turned_ccw(r)),
        turns_of(turned_cw(r)) == (turns_of(r) + 1) % 4,
        turns_of(turned_ccw(r)) == (turns_of(r) + 3) % 4,
        turns_of(turned_ccw(turned_cw(r))) == turns_of(r),
        turns_of(turned_cw(turned_ccw(r))) == turns_of(r),
{
    assert(r == -270 || r == -180 || r == -90 || r == 0 || r == 90 || r == 180 || r == 270) by {
        assert(r % 90 == 0);
    }
}

/// What the viewer window is asked to do.
#[derive(Debug, Clone)]
pub enum ViewerMessage {
    Cancel,
    Save,
    SaveAs(String),
    ToggleSaveDropdown,
    SetTheme(ViewerTheme),
    LoadImage(String),
    SetAspectRatio(AspectRatio),
    SetOrientation(Orientation),
    RotateCW,
    RotateCCW,
    FlipH,
    FlipV,
    CropApplied,
}

/// The message of the crop view.
#[derive(Debug, Clone, Copy, PartialEq, Eq, Structural)]
pub enum CropMessage {
    DragStart,
}

/// What the window does after a message: nothing more, redraw the picture
/// with the new turns and flips, write the picture in a format, or close.
#[derive(Debug, Clone, PartialEq, Eq)]
pub enum ViewerAction {
    Nothing,
    Redraw,
    SaveAs(String),
    Exit,
}

/// How the viewer takes a message: the state after it, whether the save
/// menu is open, and what the window must do.
pub open spec fn viewer_step(s: ViewerState, dropdown: bool, msg: ViewerMessage) -> (ViewerState, bool, ViewerAction) {
    match msg {
        ViewerMessage::Cancel => (s, dropdown, ViewerAction::Exit),
        ViewerMessage::ToggleSaveDropdown => (s, !dropdown, ViewerAction::Nothing),
        ViewerMessage::SaveAs(f) => (s, dropdown, ViewerAction::SaveAs(f)),
        ViewerMessage::SetTheme(t) => (ViewerState { theme: t, ..s }, dropdown, ViewerAction::Nothing),
        ViewerMessage::SetAspectRatio(a) => (ViewerState { aspect_ratio: a, ..s }, dropdown, ViewerAction::Nothing),
        ViewerMessage::SetOrientation(o) => (ViewerState { orientation: o, ..s }, dropdown, ViewerAction::Nothing),
        ViewerMessage::RotateCW => (
            ViewerState { rotation: turned_cw(s.rotation as int) as i32, ..s },
            dropdown,
            ViewerAction::Redraw,
        ),
        ViewerMessage::RotateCCW => (
            ViewerState { rotation: turned_ccw(s.rotation as int) as i32, ..s },
            dropdown,
            ViewerAction::Redraw,
        ),
        ViewerMessage::FlipH => (ViewerState { flip_h: !s.flip_h, ..s }, dropdown, ViewerAction::Redraw),
        ViewerMessage::FlipV => (ViewerState { flip_v: !s.flip_v, ..s }, dropdown, ViewerAction::Redraw),
        _ => (s, dropdown, ViewerAction::Nothing),
    }
}

/// Applies a message to the viewer; see `viewer_step`.
pub fn handle_viewer_message(state: &mut ViewerState, dropdown: &mut bool, msg: ViewerMessage) -> (a: ViewerAction)
    requires
        old(state).rotation <= i32::MAX - 90,
        old(state).rotation >= i32::MIN + 90,
    ensures
        (*final(state), *final(dropdown), a) == viewer_step(*old(state), *old(dropdown), msg),
{
    match msg {
        ViewerMessage::Cancel => ViewerAction::Exit,
        ViewerMessage::ToggleSaveDropdown => {
            *dropdown = !*dropdown;
            ViewerAction::Nothing
        },
        ViewerMessage::SaveAs(f) => ViewerAction::SaveAs(f),
        ViewerMessage::SetTheme(t) => {
            state.theme = t;
            ViewerAction::Nothing
        },
        ViewerMessage::SetAspectRatio(a) => {
            state.aspect_ratio = a;
            ViewerAction::Nothing
        },
        ViewerMessage::SetOrientation(o) => {
            state.orientation = o;
            ViewerAction::Nothing
        },
        ViewerMessage::RotateCW => {
            state.rotate_cw();
            ViewerAction::Redraw
        },
        ViewerMessage::RotateCCW => {
            state.rotate_ccw();
            ViewerAction::Redraw
        },
        ViewerMessage::FlipH => {
            state.toggle_flip_h();
            ViewerAction::Redraw
        },
        ViewerMessage::FlipV => {
            state.toggle_flip_v();
            ViewerAction::Redraw
        },
        _ => ViewerAction::Nothing,
    }
}

} // verus!
