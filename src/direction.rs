use vstd::prelude::*;

verus! {

/// The movement requested for the current value.
#[derive(Clone, Copy, Debug, PartialEq, Eq, Structural)]
pub enum Direction {
    /// Jump to the smallest candidate.
    Bottom,
    /// Move to the nearest candidate below the current value.
    Down,
    /// Move to the nearest candidate above the current value.
    Up,
    /// Jump to the largest candidate.
    Top,
}

/// The direction written as `name`, if any (names are case-sensitive).
pub open spec fn direction_named(name: Seq<char>) -> Option<Direction> {
    if name == "bottom"@ {
        Some(Direction::Bottom)
    } else if name == "down"@ {
        Some(Direction::Down)
    } else if name == "up"@ {
        Some(Direction::Up)
    } else if name == "top"@ {
        Some(Direction::Top)
    } else {
        None
    }
}

/// The message given for a word that names no direction.
pub open spec fn invalid_direction_message() -> Seq<char> {
    "<direction> must be one of 'top', 'up', 'down', or 'bottom'"@
}

fn owned(s: &str) -> (r: String)
    ensures
        r@ == s@,
{
    s.to_owned()
}

impl Direction {
    /// Reads a direction from its name: `bottom`, `down`, `up` or `top`.
    pub fn parse(s: &String) -> (r: Result<Direction, String>)
        ensures
            match direction_named(s@) {
                Some(d) => r == Ok::<Direction, String>(d),
                None => r is Err && r->Err_0@ == invalid_direction_message(),
            },
    {
        if *s == owned("bottom") {
            Ok(Direction::Bottom)
        } else if *s == owned("down") {
            Ok(Direction::Down)
        } else if *s == owned("up") {
            Ok(Direction::Up)
        } else if *s == owned("top") {
            Ok(Direction::Top)
        } else {
            Err(owned("<direction> must be one of 'top', 'up', 'down', or 'bottom'"))
        }
    }
}

} // verus!
