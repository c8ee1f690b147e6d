use vstd::prelude::*;

pub mod screen;
pub mod screen_moves;
pub mod screen_reference;
pub mod text;
pub mod desktop;
pub mod capture;
pub mod enter_bind;
pub mod display;
pub mod emulation;
pub mod event;
pub mod cli;
pub mod privacy;
pub mod registry;
pub mod clipboard;
pub mod layer_shell;
pub mod frontmost;
pub mod keymap;
pub mod mac_capture;
pub mod x11_capture;
pub mod mac_tap;
pub mod windows_hook;
pub mod libei_capture;
pub mod xdg_dirs;
pub mod wire;
pub mod wire_layout;
pub mod backend_probe;
pub mod emulation_requests;

verus! {

/// A direction on the local desktop where a remote client sits.
#[derive(Clone, Copy, Debug, PartialEq, Eq, Structural, Hash)]
pub enum Position {
    Left,
    Right,
    Top,
    Bottom,
}

impl Position {
    pub open spec fn spec_opposite(self) -> Position {
        match self {
            Position::Left => Position::Right,
            Position::Right => Position::Left,
            Position::Top => Position::Bottom,
            Position::Bottom => Position::Top,
        }
    }

    pub open spec fn spec_name(self) -> Seq<char> {
        match self {
            Position::Left => "left"@,
            Position::Right => "right"@,
            Position::Top => "top"@,
            Position::Bottom => "bottom"@,
        }
    }

    /// The position's name, as it is shown to the user.
    pub fn name(&self) -> (r: &'static str)
        ensures
            r@ == self.spec_name(),
    {
        match self {
            Position::Left => "left",
            Position::Right => "right",
            Position::Top => "top",
            Position::Bottom => "bottom",
        }
    }

    /// The position on the other side of the desktop.
    pub fn opposite(&self) -> (res: Position)
        ensures
            res == self.spec_opposite(),
    {
        match self {
            Position::Left => Position::Right,
            Position::Right => Position::Left,
            Position::Top => Position::Bottom,
            Position::Bottom => Position::Top,
        }
    }
}

/// The opposite of a position lies across the desktop on the same axis:
/// left and right face each other, as do top and bottom.
pub proof fn lemma_opposite_across(p: Position)
    ensures
        Position::Left.spec_opposite() == Position::Right,
        Position::Right.spec_opposite() == Position::Left,
        Position::Top.spec_opposite() == Position::Bottom,
        Position::Bottom.spec_opposite() == Position::Top,
        (p == Position::Left || p == Position::Right) <==> (p.spec_opposite() == Position::Left || p.spec_opposite()
            == Position::Right),
{
}

/// The opposite of the opposite position is the position itself.
pub proof fn lemma_opposite_involution(p: Position)
    ensures
        p.spec_opposite().spec_opposite() == p,
        p.spec_opposite() != p,
{
}

} // verus!
