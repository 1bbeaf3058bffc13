//! The command protocol of the control socket.
//!
//! A client sends one command per line, such as `focus east`; the server
//! answers each with one line: `ok...` or `error: <message>`, or JSON for
//! queries. This module reads the commands and carries them out on the state;
//! what the window server and the accessibility API must then do is handed
//! back as effects.

use vstd::prelude::*;

use crate::layout::{Direction, LayoutMode, SplitDirection};
use crate::text::{
    bool_string, bool_text, decimal, decimal_string, digit_char, digit_text, float_thousandths,
    float_thousandths_spec, is_float_text, is_float_word, parse_usize,
    parse_usize_spec, split_words, str_eq, words, digits_value, lemma_words_of_two,
};
use crate::config::default_keybinding_table;
use crate::features::engine_without;
use crate::layout::{next_in, swap_in, EngineView};
use crate::state::{Mosaic, MosaicView, WindowMove};
use crate::window::{TrackedWindow, TrackerView};

verus! {

/// The master share that `layout master-stack` sets, in parts of
/// `RATIO_SCALE`.
pub const COMMAND_MASTER_RATIO: u32 = 550;

/// What a query asks for.
#[derive(Clone, Copy, Debug, PartialEq, Eq, Structural)]
pub enum QueryTarget {
    Windows,
    Spaces,
    Focused,
}

/// A command of the protocol.
#[derive(Clone, Copy, Debug, PartialEq, Eq, Structural)]
pub enum Command {
    /// Focus the neighbour of the focused window.
    Focus(Direction),
    /// Exchange the focused window with its neighbour.
    Swap(Direction),
    /// Move the focused window to the space with this number, counting from 1.
    MoveToSpace(usize),
    /// Switch to the space with this number, counting from 1.
    SwitchSpace(usize),
    /// Arrange the active space this way.
    Layout(LayoutMode),
    /// Switch the focused window between floating and tiled.
    ToggleFloat,
    /// Switch the focused window in and out of fullscreen.
    ToggleFullscreen,
    /// Turn every split of the active space's tree.
    Rotate,
    /// Give both sides of every split the same room.
    Equalize,
    /// Resize the focused window along a split direction, moving the split
    /// by a signed amount in parts of `RATIO_SCALE`.
    Resize(SplitDirection, i64),
    /// Rediscover the windows and retile the active space.
    Retile,
    /// Describe the state.
    Query(QueryTarget),
    /// Stop the window manager.
    Quit,
}

/// The direction a word names: a compass point or its arrow-key name.
pub open spec fn direction_of(w: Seq<char>) -> Option<Direction> {
    if w == "north"@ || w == "up"@ {
        Some(Direction::North)
    } else if w == "south"@ || w == "down"@ {
        Some(Direction::South)
    } else if w == "east"@ || w == "right"@ {
        Some(Direction::East)
    } else if w == "west"@ || w == "left"@ {
        Some(Direction::West)
    } else {
        None
    }
}

/// The split direction a resize word names.
pub open spec fn split_of(w: Seq<char>) -> Option<SplitDirection> {
    if w == "left"@ || w == "west"@ || w == "right"@ || w == "east"@ {
        Some(SplitDirection::Horizontal)
    } else if w == "up"@ || w == "north"@ || w == "down"@ || w == "south"@ {
        Some(SplitDirection::Vertical)
    } else {
        None
    }
}

/// Whether a resize word points west or north, toward the start of a split.
pub open spec fn backward(w: Seq<char>) -> bool {
    w == "left"@ || w == "west"@ || w == "up"@ || w == "north"@
}

/// How far a resize moves the split, in parts of `RATIO_SCALE`: the amount
/// in thousandths, negated toward the west or north.
pub open spec fn resize_delta(w: Seq<char>, amount: Seq<char>) -> i64 {
    if backward(w) {
        (-float_thousandths_spec(amount)) as i64
    } else {
        float_thousandths_spec(amount) as i64
    }
}

/// The layout mode a word names.
pub open spec fn layout_mode_of(w: Seq<char>) -> Option<LayoutMode> {
    if w == "bsp"@ {
        Some(LayoutMode::Bsp)
    } else if w == "monocle"@ {
        Some(LayoutMode::Monocle)
    } else if w == "master-stack"@ || w == "master_stack"@ {
        Some(LayoutMode::MasterStack { master_ratio: COMMAND_MASTER_RATIO })
    } else {
        None
    }
}

/// `prefix`, the word, and a closing quote: the error for a word that was
/// not understood.
pub open spec fn quoted(prefix: Seq<char>, w: Seq<char>) -> Seq<char> {
    prefix + w + "'"@
}

/// The command a line's words make, or the error answered to them.
pub open spec fn parsed(ws: Seq<Seq<char>>) -> Result<Command, Seq<char>> {
    if ws.len() == 0 {
        Err("error: empty command"@)
    } else {
        let c = ws[0];
        let args = ws.drop_first();
        if c == "focus"@ {
            if args.len() == 0 {
                Err("error: focus requires a direction (north|south|east|west)"@)
            } else {
                match direction_of(args[0]) {
                    Some(d) => Ok(Command::Focus(d)),
                    None => Err(quoted("error: invalid direction '"@, args[0])),
                }
            }
        } else if c == "swap"@ {
            if args.len() == 0 {
                Err("error: swap requires a direction (north|south|east|west)"@)
            } else {
                match direction_of(args[0]) {
                    Some(d) => Ok(Command::Swap(d)),
                    None => Err(quoted("error: invalid direction '"@, args[0])),
                }
            }
        } else if c == "move-to-space"@ {
            if args.len() == 0 {
                Err("error: move-to-space requires a space number"@)
            } else {
                match parse_usize_spec(args[0]) {
                    Some(n) => Ok(Command::MoveToSpace(n as usize)),
                    None => Err(quoted("error: invalid space number '"@, args[0])),
                }
            }
        } else if c == "space"@ {
            if args.len() == 0 {
                Err("error: space requires a space number"@)
            } else {
                match parse_usize_spec(args[0]) {
                    Some(n) => Ok(Command::SwitchSpace(n as usize)),
                    None => Err(quoted("error: invalid space number '"@, args[0])),
                }
            }
        } else if c == "layout"@ {
            if args.len() == 0 {
                Err("error: layout requires a mode (bsp|monocle|master-stack)"@)
            } else {
                match layout_mode_of(args[0]) {
                    Some(m) => Ok(Command::Layout(m)),
                    None => Err(quoted("error: unknown layout mode '"@, args[0])),
                }
            }
        } else if c == "toggle"@ {
            if args.len() == 0 {
                Err("error: toggle requires a target (float|fullscreen)"@)
            } else if args[0] == "float"@ {
                Ok(Command::ToggleFloat)
            } else if args[0] == "fullscreen"@ {
                Ok(Command::ToggleFullscreen)
            } else {
                Err(quoted("error: unknown toggle target '"@, args[0]))
            }
        } else if c == "rotate"@ {
            Ok(Command::Rotate)
        } else if c == "equalize"@ {
            Ok(Command::Equalize)
        } else if c == "resize"@ {
            if args.len() < 2 {
                Err("error: resize requires <direction> <delta>"@)
            } else {
                match split_of(args[0]) {
                    None => Err(quoted("error: invalid direction '"@, args[0])),
                    Some(d) => if is_float_text(args[1]) {
                        Ok(Command::Resize(d, resize_delta(args[0], args[1])))
                    } else {
                        Err(quoted("error: invalid delta '"@, args[1]))
                    },
                }
            }
        } else if c == "retile"@ {
            Ok(Command::Retile)
        } else if c == "query"@ {
            if args.len() == 0 {
                Err("error: query requires a target (windows|spaces|focused)"@)
            } else if args[0] == "windows"@ {
                Ok(Command::Query(QueryTarget::Windows))
            } else if args[0] == "spaces"@ {
                Ok(Command::Query(QueryTarget::Spaces))
            } else if args[0] == "focused"@ {
                Ok(Command::Query(QueryTarget::Focused))
            } else {
                Err(quoted("error: unknown query target '"@, args[0]))
            }
        } else if c == "quit"@ {
            Ok(Command::Quit)
        } else {
            Err(quoted("error: unknown command '"@, c))
        }
    }
}

/// Reads a direction: `north`/`up`, `south`/`down`, `east`/`right` or
/// `west`/`left`.
pub fn parse_direction(s: &str) -> (r: Option<Direction>)
    ensures
        r == direction_of(s@),
{
    if str_eq(s, "north") || str_eq(s, "up") {
        Some(Direction::North)
    } else if str_eq(s, "south") || str_eq(s, "down") {
        Some(Direction::South)
    } else if str_eq(s, "east") || str_eq(s, "right") {
        Some(Direction::East)
    } else if str_eq(s, "west") || str_eq(s, "left") {
        Some(Direction::West)
    } else {
        None
    }
}

/// Reads the split direction of a resize.
fn parse_split(s: &str) -> (r: Option<SplitDirection>)
    ensures
        r == split_of(s@),
{
    if str_eq(s, "left") || str_eq(s, "west") || str_eq(s, "right") || str_eq(s, "east") {
        Some(SplitDirection::Horizontal)
    } else if str_eq(s, "up") || str_eq(s, "north") || str_eq(s, "down") || str_eq(s, "south") {
        Some(SplitDirection::Vertical)
    } else {
        None
    }
}

/// Whether a resize word points west or north.
fn is_backward(s: &str) -> (r: bool)
    ensures
        r == backward(s@),
{
    str_eq(s, "left") || str_eq(s, "west") || str_eq(s, "up") || str_eq(s, "north")
}

/// Reads a layout mode.
fn parse_layout_mode(s: &str) -> (r: Option<LayoutMode>)
    ensures
        r == layout_mode_of(s@),
{
    if str_eq(s, "bsp") {
        Some(LayoutMode::Bsp)
    } else if str_eq(s, "monocle") {
        Some(LayoutMode::Monocle)
    } else if str_eq(s, "master-stack") || str_eq(s, "master_stack") {
        Some(LayoutMode::MasterStack { master_ratio: COMMAND_MASTER_RATIO })
    } else {
        None
    }
}

/// The error for a word that was not understood.
fn quoted_error(prefix: &str, w: &str) -> (r: String)
    ensures
        r@ == quoted(prefix@, w@),
{
    let mut out = String::from_str(prefix);
    out.append(w);
    out.append("'");
    out
}

/// An error answer.
fn error_text(text: &str) -> (r: Result<Command, String>)
    ensures
        r matches Err(e) && e@ == text@,
{
    Err(String::from_str(text))
}

/// Whether a line holds no command: it is empty or only white space. The
/// server answers nothing to such a line.
pub fn is_blank_line(line: &str) -> (r: bool)
    ensures
        r == (words(line@).len() == 0),
{
    let parts = split_words(line);
    parts.len() == 0
}

/// Reads a command line: its first word names the command, the others are
/// its arguments. The error is the answer to send back.
pub fn parse_command(cmd: &str) -> (r: Result<Command, String>)
    ensures
        match parsed(words(cmd@)) {
            Ok(c) => r == Ok::<Command, String>(c),
            Err(e) => r matches Err(s) && s@ == e,
        },
{
    let parts = split_words(cmd);
    let ghost ws = words(cmd@);
    if parts.len() == 0 {
        return error_text("error: empty command");
    }
    let c = parts[0];
    let n = parts.len();
    proof {
        assert(ws.drop_first().len() == n - 1);
        assert(n > 1 ==> ws.drop_first()[0] == parts@[1]@);
        assert(n > 2 ==> ws.drop_first()[1] == parts@[2]@);
    }
    if str_eq(c, "focus") {
        if n < 2 {
            error_text("error: focus requires a direction (north|south|east|west)")
        } else {
            match parse_direction(parts[1]) {
                Some(d) => Ok(Command::Focus(d)),
                None => Err(quoted_error("error: invalid direction '", parts[1])),
            }
        }
    } else if str_eq(c, "swap") {
        if n < 2 {
            error_text("error: swap requires a direction (north|south|east|west)")
        } else {
            match parse_direction(parts[1]) {
                Some(d) => Ok(Command::Swap(d)),
                None => Err(quoted_error("error: invalid direction '", parts[1])),
            }
        }
    } else if str_eq(c, "move-to-space") {
        if n < 2 {
            error_text("error: move-to-space requires a space number")
        } else {
            match parse_usize(parts[1]) {
                Some(k) => Ok(Command::MoveToSpace(k)),
                None => Err(quoted_error("error: invalid space number '", parts[1])),
            }
        }
    } else if str_eq(c, "space") {
        if n < 2 {
            error_text("error: space requires a space number")
        } else {
            match parse_usize(parts[1]) {
                Some(k) => Ok(Command::SwitchSpace(k)),
                None => Err(quoted_error("error: invalid space number '", parts[1])),
            }
        }
    } else if str_eq(c, "layout") {
        if n < 2 {
            error_text("error: layout requires a mode (bsp|monocle|master-stack)")
        } else {
            match parse_layout_mode(parts[1]) {
                Some(m) => Ok(Command::Layout(m)),
                None => Err(quoted_error("error: unknown layout mode '", parts[1])),
            }
        }
    } else if str_eq(c, "toggle") {
        if n < 2 {
            error_text("error: toggle requires a target (float|fullscreen)")
        } else if str_eq(parts[1], "float") {
            Ok(Command::ToggleFloat)
        } else if str_eq(parts[1], "fullscreen") {
            Ok(Command::ToggleFullscreen)
        } else {
            Err(quoted_error("error: unknown toggle target '", parts[1]))
        }
    } else if str_eq(c, "rotate") {
        Ok(Command::Rotate)
    } else if str_eq(c, "equalize") {
        Ok(Command::Equalize)
    } else if str_eq(c, "resize") {
        if n < 3 {
            error_text("error: resize requires <direction> <delta>")
        } else {
            match parse_split(parts[1]) {
                None => Err(quoted_error("error: invalid direction '", parts[1])),
                Some(d) => if is_float_word(parts[2]) {
                    let amount = float_thousandths(parts[2]);
                    let delta = if is_backward(parts[1]) {
                        -amount
                    } else {
                        amount
                    };
                    Ok(Command::Resize(d, delta))
                } else {
                    Err(quoted_error("error: invalid delta '", parts[2]))
                },
            }
        }
    } else if str_eq(c, "retile") {
        Ok(Command::Retile)
    } else if str_eq(c, "query") {
        if n < 2 {
            error_text("error: query requires a target (windows|spaces|focused)")
        } else if str_eq(parts[1], "windows") {
            Ok(Command::Query(QueryTarget::Windows))
        } else if str_eq(parts[1], "spaces") {
            Ok(Command::Query(QueryTarget::Spaces))
        } else if str_eq(parts[1], "focused") {
            Ok(Command::Query(QueryTarget::Focused))
        } else {
            Err(quoted_error("error: unknown query target '", parts[1]))
        }
    } else if str_eq(c, "quit") {
        Ok(Command::Quit)
    } else {
        Err(quoted_error("error: unknown command '", c))
    }
}


/// The digits after the point of `f` thousandths, without trailing zeros
/// (a lone `0` for none).
pub open spec fn fraction_text(f: nat) -> Seq<char> {
    if f == 0 {
        seq!['0']
    } else if f % 100 == 0 {
        seq![digit_char(f / 100)]
    } else if f % 10 == 0 {
        seq![digit_char(f / 100), digit_char((f / 10) % 10)]
    } else {
        seq![digit_char(f / 100), digit_char((f / 10) % 10), digit_char(f % 10)]
    }
}

/// A ratio in parts of `RATIO_SCALE`, as a floating-point number's `Debug`
/// form writes it: the whole part, a point, and the shortest fraction.
pub open spec fn ratio_text(r: u32) -> Seq<char> {
    decimal((r / 1000) as nat) + "."@ + fraction_text((r % 1000) as nat)
}

/// A layout mode as its `Debug` form writes it.
pub open spec fn mode_text(m: LayoutMode) -> Seq<char> {
    match m {
        LayoutMode::Bsp => "Bsp"@,
        LayoutMode::Monocle => "Monocle"@,
        LayoutMode::MasterStack { master_ratio } => "MasterStack { master_ratio: "@ + ratio_text(
            master_ratio,
        ) + " }"@,
    }
}

/// Writes a ratio.
fn ratio_string(r: u32) -> (s: String)
    ensures
        s@ == ratio_text(r),
{
    let mut out = decimal_string((r / 1000) as u64);
    out.append(".");
    let ghost base = out@;
    let f = r % 1000;
    if f == 0 {
        out.append(digit_text(0));
    } else if f % 100 == 0 {
        out.append(digit_text(f / 100));
    } else if f % 10 == 0 {
        out.append(digit_text(f / 100));
        out.append(digit_text((f / 10) % 10));
    } else {
        out.append(digit_text(f / 100));
        out.append(digit_text((f / 10) % 10));
        out.append(digit_text(f % 10));
    }
    proof {
        assert(out@ =~= base + fraction_text(f as nat));
    }
    out
}

/// Writes a layout mode.
pub fn mode_string(m: LayoutMode) -> (s: String)
    ensures
        s@ == mode_text(m),
{
    match m {
        LayoutMode::Bsp => String::from_str("Bsp"),
        LayoutMode::Monocle => String::from_str("Monocle"),
        LayoutMode::MasterStack { master_ratio } => {
            let mut out = String::from_str("MasterStack { master_ratio: ");
            let r = ratio_string(master_ratio);
            out.append(r.as_str());
            out.append(" }");
            out
        },
    }
}

/// Parts joined with commas.
pub open spec fn joined(parts: Seq<Seq<char>>) -> Seq<char>
    decreases parts.len(),
{
    if parts.len() == 0 {
        Seq::empty()
    } else if parts.len() == 1 {
        parts[0]
    } else {
        joined(parts.drop_last()) + ","@ + parts.last()
    }
}

/// A window as a JSON object: identifier, application, title, space and
/// whether it floats.
pub open spec fn window_json(w: TrackedWindow) -> Seq<char> {
    "{\"id\":"@ + decimal(w.id as nat) + ",\"app\":\""@ + w.owner_name@ + "\",\"title\":\""@
        + w.title@ + "\",\"space\":"@ + decimal(w.space_id as nat) + ",\"floating\":"@ + bool_text(
        w.is_floating,
    ) + "}"@
}

/// The focused window as a JSON object: identifier, application and title.
pub open spec fn focused_json(w: TrackedWindow) -> Seq<char> {
    "{\"id\":"@ + decimal(w.id as nat) + ",\"app\":\""@ + w.owner_name@ + "\",\"title\":\""@
        + w.title@ + "\"}"@
}

/// A space as a JSON object: its number (counting from 1), its identifier
/// and whether it is the active one.
pub open spec fn space_json(index: nat, id: u64, active: u64) -> Seq<char> {
    "{\"index\":"@ + decimal(index + 1) + ",\"id\":"@ + decimal(id as nat) + ",\"active\":"@
        + bool_text(id == active) + "}"@
}

/// A JSON array of the given items.
pub open spec fn json_array(items: Seq<Seq<char>>) -> Seq<char> {
    "["@ + joined(items) + "]"@
}

/// The windows as a JSON array.
pub open spec fn windows_json(ws: Seq<TrackedWindow>) -> Seq<char> {
    json_array(ws.map_values(|w: TrackedWindow| window_json(w)))
}

/// The spaces as a JSON array.
pub open spec fn spaces_json(spaces: Seq<u64>, active: u64) -> Seq<char> {
    json_array(Seq::new(spaces.len(), |i: int| space_json(i as nat, spaces[i], active)))
}

/// Joining one more part.
proof fn lemma_joined_push(parts: Seq<Seq<char>>, i: int)
    requires
        0 <= i < parts.len(),
    ensures
        joined(parts.take(i + 1)) == if i == 0 {
            parts[0]
        } else {
            joined(parts.take(i)) + ","@ + parts[i]
        },
{
    assert(parts.take(i + 1).drop_last() =~= parts.take(i));
}

/// Writes a JSON array of the given items.
fn json_array_string(items: &Vec<String>) -> (r: String)
    ensures
        r@ == json_array(items@.map_values(|s: String| s@)),
{
    let ghost parts = items@.map_values(|s: String| s@);
    let mut out = String::from_str("[");
    proof {
        reveal_strlit("[");
        reveal_strlit(",");
        reveal_strlit("]");
    }
    let mut i: usize = 0;
    while i < items.len()
        invariant
            i <= items@.len(),
            parts == items@.map_values(|s: String| s@),
            out@ == "["@ + joined(parts.take(i as int)),
        decreases items@.len() - i,
    {
        proof {
            lemma_joined_push(parts, i as int);
        }
        if i > 0 {
            out.append(",");
        }
        out.append(items[i].as_str());
        proof {
            if i == 0 {
                assert(parts.take(0) =~= Seq::<Seq<char>>::empty());
                assert(out@ =~= "["@ + joined(parts.take(i + 1)));
            } else {
                assert(out@ =~= "["@ + joined(parts.take(i + 1)));
            }
        }
        i = i + 1;
    }
    out.append("]");
    proof {
        assert(parts.take(items@.len() as int) =~= parts);
    }
    out
}

/// Writes a window as a JSON object.
fn window_json_string(w: &TrackedWindow) -> (r: String)
    ensures
        r@ == window_json(*w),
{
    let mut out = String::from_str("{\"id\":");
    let id = decimal_string(w.id as u64);
    out.append(id.as_str());
    out.append(",\"app\":\"");
    out.append(w.owner_name.as_str());
    out.append("\",\"title\":\"");
    out.append(w.title.as_str());
    out.append("\",\"space\":");
    let space = decimal_string(w.space_id);
    out.append(space.as_str());
    out.append(",\"floating\":");
    let floating = bool_string(w.is_floating);
    out.append(floating.as_str());
    out.append("}");
    out
}

/// Writes the focused window as a JSON object.
fn focused_json_string(w: &TrackedWindow) -> (r: String)
    ensures
        r@ == focused_json(*w),
{
    let mut out = String::from_str("{\"id\":");
    let id = decimal_string(w.id as u64);
    out.append(id.as_str());
    out.append(",\"app\":\"");
    out.append(w.owner_name.as_str());
    out.append("\",\"title\":\"");
    out.append(w.title.as_str());
    out.append("\"}");
    out
}

/// Writes a space as a JSON object.
fn space_json_string(index: usize, id: u64, active: u64) -> (r: String)
    requires
        index < usize::MAX,
    ensures
        r@ == space_json(index as nat, id, active),
{
    let mut out = String::from_str("{\"index\":");
    let number = decimal_string((index + 1) as u64);
    out.append(number.as_str());
    out.append(",\"id\":");
    let ids = decimal_string(id);
    out.append(ids.as_str());
    out.append(",\"active\":");
    let active_text = bool_string(id == active);
    out.append(active_text.as_str());
    out.append("}");
    out
}

/// Writes the windows as a JSON array.
fn windows_json_string(ws: &Vec<&TrackedWindow>) -> (r: String)
    ensures
        r@ == windows_json(ws@.map_values(|w: &TrackedWindow| *w)),
{
    let mut items: Vec<String> = Vec::new();
    let mut i: usize = 0;
    while i < ws.len()
        invariant
            i <= ws@.len(),
            items@.len() == i,
            forall|k: int| 0 <= k < i ==> #[trigger] items@[k]@ == window_json(*ws@[k]),
        decreases ws@.len() - i,
    {
        let item = window_json_string(ws[i]);
        items.push(item);
        i = i + 1;
    }
    let r = json_array_string(&items);
    proof {
        assert(items@.map_values(|s: String| s@) =~= ws@.map_values(|w: &TrackedWindow| *w).map_values(
            |w: TrackedWindow| window_json(w),
        ));
    }
    r
}

/// Writes the spaces as a JSON array.
fn spaces_json_string(spaces: &Vec<u64>, active: u64) -> (r: String)
    ensures
        r@ == spaces_json(spaces@, active),
{
    let mut items: Vec<String> = Vec::new();
    let mut i: usize = 0;
    while i < spaces.len()
        invariant
            i <= spaces@.len(),
            items@.len() == i,
            forall|k: int| 0 <= k < i ==> #[trigger] items@[k]@ == space_json(k as nat, spaces@[k], active),
        decreases spaces@.len() - i,
    {
        let item = space_json_string(i, spaces[i], active);
        items.push(item);
        i = i + 1;
    }
    let r = json_array_string(&items);
    proof {
        assert(items@.map_values(|s: String| s@) =~= Seq::new(
            spaces@.len(),
            |k: int| space_json(k as nat, spaces@[k], active),
        ));
    }
    r
}


/// What the window manager knows of its surroundings when it runs a command:
/// the active space, the spaces in order, and (for a retile) the windows now
/// on screen.
pub struct Environment {
    pub active_space: u64,
    pub spaces: Vec<u64>,
    pub windows: Vec<TrackedWindow>,
}

/// Work a command leaves for the window server and the accessibility API.
#[derive(Clone, Debug)]
pub enum Effect {
    /// Move a window to a space.
    MoveWindowToSpace { window_id: u32, space_id: u64 },
    /// Show a space.
    SwitchToSpace { space_id: u64 },
    /// Put a window in place.
    Place(WindowMove),
    /// Stop the window manager, without answering.
    Quit,
}

/// The answer to a command, and the work it leaves.
pub struct Reply {
    pub text: String,
    pub effects: Vec<Effect>,
}

/// What a command does, as the contracts see it.
pub ghost struct Outcome {
    pub state: MosaicView,
    pub text: Seq<char>,
    pub effects: Seq<Effect>,
}

/// A reply matches an outcome.
pub open spec fn answers(r: Reply, o: Outcome) -> bool {
    r.text@ == o.text && r.effects@ == o.effects
}

/// The effects that put windows in place.
pub open spec fn places(moves: Seq<WindowMove>) -> Seq<Effect> {
    moves.map_values(|m: WindowMove| Effect::Place(m))
}

/// The identifier of the focused window, if one is focused and tracked.
pub open spec fn focused_window_id(t: TrackerView) -> Option<u32> {
    match t.focused {
        Some(f) => if t.has(f) {
            Some(t.lookup(f)->0.id)
        } else {
            None
        },
        None => None,
    }
}

/// The tracker after `set_focused(id)`.
pub open spec fn focus_set(t: TrackerView, id: u32) -> TrackerView {
    if t.has(id) {
        TrackerView { focused: Some(id), ..t }
    } else {
        t
    }
}

/// An engine with two windows exchanged.
pub open spec fn engine_swapped(e: EngineView, a: u32, b: u32) -> EngineView {
    EngineView { windows: swap_in(e.windows, a, b), tree: e.tree.swapped(a, b), ..e }
}

/// An outcome that only answers.
pub open spec fn answer(v: MosaicView, text: Seq<char>) -> Outcome {
    Outcome { state: v, text, effects: Seq::empty() }
}

/// An outcome that retiles space `a` of `v`, then answers.
pub open spec fn retile_answer(v: MosaicView, a: u64, text: Seq<char>) -> Outcome {
    Outcome { state: v.retiled(a), text, effects: places(v.retile_moves(a)) }
}

impl MosaicView {
    /// The state with space `a`'s engine replaced by `e`.
    pub open spec fn engine_set(self, a: u64, e: EngineView) -> MosaicView {
        MosaicView { layouts: self.layouts.insert(a, e), ..self }
    }

    /// `focus`: the focused window's neighbour in the direction, in the
    /// active space's engine (made if missing), becomes focused.
    pub open spec fn focus_outcome(self, a: u64, d: Direction) -> Outcome {
        match focused_window_id(self.tracker) {
            None => answer(self, "error: no window in that direction"@),
            Some(f) => {
                let v = self.with_engine(a);
                match self.engine_for(a).neighbour_in(f, d) {
                    Some(t) => answer(
                        MosaicView { tracker: focus_set(v.tracker, t), ..v },
                        "ok: focused window "@ + decimal(t as nat),
                    ),
                    None => answer(v, "error: no window in that direction"@),
                }
            },
        }
    }

    /// `swap`: the focused window and its neighbour in the direction are
    /// exchanged, and the active space is retiled.
    pub open spec fn swap_outcome(self, a: u64, d: Direction) -> Outcome {
        match focused_window_id(self.tracker) {
            None => answer(self, "error: no window to swap with in that direction"@),
            Some(f) => {
                let e = self.engine_for(a);
                match e.neighbour_in(f, d) {
                    Some(t) => retile_answer(
                        self.engine_set(a, engine_swapped(e, f, t)),
                        a,
                        "ok: swapped "@ + decimal(f as nat) + " with "@ + decimal(t as nat),
                    ),
                    None => answer(
                        self.with_engine(a),
                        "error: no window to swap with in that direction"@,
                    ),
                }
            },
        }
    }

    /// `move-to-space n`: the focused window goes to the `n`th space (counting
    /// from 1): the window server is asked to move it, the tracker records the
    /// new space, the window leaves its old space's engine and joins the new
    /// one's, and both spaces are retiled.
    pub open spec fn move_outcome(self, n: usize, spaces: Seq<u64>) -> Outcome {
        if n == 0 || n > spaces.len() {
            answer(
                self,
                "error: space "@ + decimal(n as nat) + " does not exist (have "@ + decimal(
                    spaces.len(),
                ) + ")"@,
            )
        } else {
            let target = spaces[n - 1];
            match focused_window_id(self.tracker) {
                None => answer(self, "error: no focused window"@),
                Some(f) => {
                    let text = "ok: moved window "@ + decimal(f as nat) + " to space "@ + decimal(
                        n as nat,
                    );
                    let asked = seq![Effect::MoveWindowToSpace { window_id: f, space_id: target }];
                    if self.tracker.has(f) {
                        let w = self.tracker.lookup(f)->0;
                        let old_space = w.space_id;
                        let v1 = MosaicView {
                            tracker: self.tracker.with_window(f, TrackedWindow { space_id: target, ..w }),
                            ..self
                        };
                        let v2 = if v1.layouts.contains_key(old_space) {
                            v1.engine_set(old_space, engine_without(v1.layouts[old_space], f))
                        } else {
                            v1
                        };
                        let v3 = v2.engine_set(target, v2.engine_for(target).with_window(f));
                        let v4 = v3.retiled(old_space);
                        Outcome {
                            state: v4.retiled(target),
                            text,
                            effects: asked + places(v3.retile_moves(old_space)) + places(
                                v4.retile_moves(target),
                            ),
                        }
                    } else {
                        Outcome { state: self, text, effects: asked }
                    }
                },
            }
        }
    }

    /// `space n`: the window server is asked to show the `n`th space.
    pub open spec fn switch_outcome(self, n: usize, spaces: Seq<u64>) -> Outcome {
        if n == 0 || n > spaces.len() {
            answer(self, "error: space "@ + decimal(n as nat) + " does not exist"@)
        } else {
            Outcome {
                state: self,
                text: "ok: switched to space "@ + decimal(n as nat),
                effects: seq![Effect::SwitchToSpace { space_id: spaces[n - 1] }],
            }
        }
    }

    /// `layout`: the active space's engine takes the mode, and the space is
    /// retiled.
    pub open spec fn layout_outcome(self, a: u64, m: LayoutMode) -> Outcome {
        retile_answer(
            self.engine_set(a, EngineView { mode: m, ..self.engine_for(a) }),
            a,
            "ok: layout set to "@ + mode_text(m),
        )
    }

    /// `toggle float`: the focused window switches between floating and
    /// tiled, and the active space is retiled.
    pub open spec fn toggle_float_outcome(self, a: u64) -> Outcome {
        match focused_window_id(self.tracker) {
            None => answer(self, "error: no focused window"@),
            Some(f) => retile_answer(
                MosaicView { tracker: self.tracker.toggled(f), ..self },
                a,
                "ok: toggled float for window "@ + decimal(f as nat),
            ),
        }
    }

    /// `resize`: the focused window is resized in the active space's engine
    /// (made if missing), and the space is retiled.
    pub open spec fn resize_outcome(self, a: u64, d: SplitDirection, delta: i64) -> Outcome {
        match focused_window_id(self.tracker) {
            None => answer(self, "error: no focused window"@),
            Some(f) => retile_answer(
                self.engine_set(
                    a,
                    EngineView { tree: self.engine_for(a).tree.resized(f, d, delta as int), ..self.engine_for(a) },
                ),
                a,
                "ok: resized window "@ + decimal(f as nat),
            ),
        }
    }

    /// The JSON a query answers with.
    pub open spec fn query_json(self, q: QueryTarget, a: u64, spaces: Seq<u64>) -> Seq<char> {
        match q {
            QueryTarget::Windows => windows_json(self.tracker.windows),
            QueryTarget::Spaces => spaces_json(spaces, a),
            QueryTarget::Focused => match self.tracker.focused {
                Some(f) => if self.tracker.has(f) {
                    focused_json(self.tracker.lookup(f)->0)
                } else {
                    "null"@
                },
                None => "null"@,
            },
        }
    }

    /// The answer to a query: `ok` and a space before the JSON.
    pub open spec fn query_text(self, q: QueryTarget, a: u64, spaces: Seq<u64>) -> Seq<char> {
        "ok "@ + self.query_json(q, a, spaces)
    }

    /// What a command does in surroundings where `a` is the active space,
    /// `spaces` the spaces, and `windows` the windows on screen.
    pub open spec fn outcome(
        self,
        cmd: Command,
        a: u64,
        spaces: Seq<u64>,
        windows: Seq<TrackedWindow>,
    ) -> Outcome {
        match cmd {
            Command::Focus(d) => self.focus_outcome(a, d),
            Command::Swap(d) => self.swap_outcome(a, d),
            Command::MoveToSpace(n) => self.move_outcome(n, spaces),
            Command::SwitchSpace(n) => self.switch_outcome(n, spaces),
            Command::Layout(m) => self.layout_outcome(a, m),
            Command::ToggleFloat => self.toggle_float_outcome(a),
            Command::ToggleFullscreen => answer(self, "ok: fullscreen toggle (not yet implemented)"@),
            Command::Rotate => retile_answer(
                self.engine_set(a, EngineView { tree: self.engine_for(a).tree.rotated(), ..self.engine_for(a) }),
                a,
                "ok: tree rotated"@,
            ),
            Command::Equalize => retile_answer(
                self.engine_set(a, EngineView { tree: self.engine_for(a).tree.equalized(), ..self.engine_for(a) }),
                a,
                "ok: tree equalized"@,
            ),
            Command::Resize(d, delta) => self.resize_outcome(a, d, delta),
            Command::Retile => retile_answer(
                MosaicView { tracker: self.tracker.refreshed(windows), ..self },
                a,
                "ok: retiled"@,
            ),
            Command::Query(q) => answer(self, self.query_text(q, a, spaces)),
            Command::Quit => Outcome { state: self, text: Seq::empty(), effects: seq![Effect::Quit] },
        }
    }
}


/// A reply that only answers.
fn reply_text(text: &str) -> (r: Reply)
    ensures
        r.text@ == text@,
        r.effects@ == Seq::<Effect>::empty(),
{
    Reply { text: String::from_str(text), effects: Vec::new() }
}

/// `prefix` followed by a number.
fn with_number(prefix: &str, n: u64) -> (r: String)
    ensures
        r@ == prefix@ + decimal(n as nat),
{
    let mut out = String::from_str(prefix);
    let digits = decimal_string(n);
    out.append(digits.as_str());
    out
}

/// Appends the effects that put windows in place.
fn push_places(effects: &mut Vec<Effect>, moves: &Vec<WindowMove>)
    ensures
        final(effects)@ == old(effects)@ + places(moves@),
{
    let ghost start = effects@;
    let mut i: usize = 0;
    while i < moves.len()
        invariant
            i <= moves@.len(),
            effects@ == start + places(moves@.take(i as int)),
        decreases moves@.len() - i,
    {
        let m = &moves[i];
        let copy = WindowMove {
            window_id: m.window_id,
            owner_pid: m.owner_pid,
            title: m.title.clone(),
            frame: m.frame,
        };
        effects.push(Effect::Place(copy));
        proof {
            assert(places(moves@.take(i + 1)) =~= places(moves@.take(i as int)).push(
                Effect::Place(moves@[i as int]),
            ));
            assert(start + places(moves@.take(i + 1)) =~= start + places(moves@.take(i as int)).push(
                Effect::Place(moves@[i as int]),
            ));
        }
        i = i + 1;
    }
    proof {
        assert(moves@.take(moves@.len() as int) =~= moves@);
    }
}

impl Mosaic {
    /// The identifier of the focused window, if one is focused and tracked.
    fn focused_id(&self) -> (r: Option<u32>)
        requires
            self.wf(),
        ensures
            r == focused_window_id(self@.tracker),
    {
        match self.tracker.get_focused() {
            Some(w) => Some(w.id),
            None => None,
        }
    }

    /// Retiles space `a` and answers `text`, with the moves as effects.
    fn retile_reply(&mut self, a: u64, text: String) -> (r: Reply)
        requires
            old(self).wf(),
        ensures
            final(self).wf(),
            final(self)@ == old(self)@.retiled(a),
            r.text@ == text@,
            r.effects@ == places(old(self)@.retile_moves(a)),
    {
        let moves = self.retile_space(a);
        let mut effects: Vec<Effect> = Vec::new();
        push_places(&mut effects, &moves);
        proof {
            assert(effects@ =~= places(moves@));
        }
        Reply { text, effects }
    }

    fn run_focus(&mut self, a: u64, d: Direction) -> (r: Reply)
        requires
            old(self).wf(),
        ensures
            final(self).wf(),
            final(self)@ == old(self)@.focus_outcome(a, d).state,
            answers(r, old(self)@.focus_outcome(a, d)),
    {
        match self.focused_id() {
            None => reply_text("error: no window in that direction"),
            Some(f) => {
                let engine = self.take_engine(a);
                let target = engine.focus_direction(f, d);
                self.put_engine(a, engine);
                proof {
                    assert(self@.layouts =~= old(self)@.with_engine(a).layouts);
                }
                match target {
                    Some(t) => {
                        self.tracker.set_focused(t);
                        Reply { text: with_number("ok: focused window ", t as u64), effects: Vec::new() }
                    },
                    None => reply_text("error: no window in that direction"),
                }
            },
        }
    }

    fn run_swap(&mut self, a: u64, d: Direction) -> (r: Reply)
        requires
            old(self).wf(),
        ensures
            final(self).wf(),
            final(self)@ == old(self)@.swap_outcome(a, d).state,
            answers(r, old(self)@.swap_outcome(a, d)),
    {
        match self.focused_id() {
            None => reply_text("error: no window to swap with in that direction"),
            Some(f) => {
                let mut engine = self.take_engine(a);
                match engine.focus_direction(f, d) {
                    Some(t) => {
                        engine.swap_windows(f, t);
                        self.put_engine(a, engine);
                        proof {
                            assert(self@.layouts =~= old(self)@.engine_set(
                                a,
                                engine_swapped(old(self)@.engine_for(a), f, t),
                            ).layouts);
                        }
                        let mut text = with_number("ok: swapped ", f as u64);
                        let rest = with_number(" with ", t as u64);
                        text.append(rest.as_str());
                        proof {
                            assert(text@ =~= "ok: swapped "@ + decimal(f as nat) + " with "@ + decimal(
                                t as nat,
                            ));
                        }
                        self.retile_reply(a, text)
                    },
                    None => {
                        self.put_engine(a, engine);
                        proof {
                            assert(self@.layouts =~= old(self)@.with_engine(a).layouts);
                        }
                        reply_text("error: no window to swap with in that direction")
                    },
                }
            },
        }
    }

    fn run_move(&mut self, n: usize, spaces: &Vec<u64>) -> (r: Reply)
        requires
            old(self).wf(),
        ensures
            final(self).wf(),
            final(self)@ == old(self)@.move_outcome(n, spaces@).state,
            answers(r, old(self)@.move_outcome(n, spaces@)),
    {
        if n == 0 || n > spaces.len() {
            let mut text = with_number("error: space ", n as u64);
            let rest = with_number(" does not exist (have ", spaces.len() as u64);
            text.append(rest.as_str());
            text.append(")");
            proof {
                assert(text@ =~= "error: space "@ + decimal(n as nat) + " does not exist (have "@
                    + decimal(spaces@.len()) + ")"@);
            }
            return Reply { text, effects: Vec::new() };
        }
        let target = spaces[n - 1];
        match self.focused_id() {
            None => reply_text("error: no focused window"),
            Some(f) => {
                let mut text = with_number("ok: moved window ", f as u64);
                let rest = with_number(" to space ", n as u64);
                text.append(rest.as_str());
                proof {
                    assert(text@ =~= "ok: moved window "@ + decimal(f as nat) + " to space "@ + decimal(
                        n as nat,
                    ));
                }
                let mut effects: Vec<Effect> = Vec::new();
                effects.push(Effect::MoveWindowToSpace { window_id: f, space_id: target });
                let ghost v0 = self@;
                let old_space = match self.tracker.get_window_mut(f) {
                    Some(w) => {
                        let old_space = w.space_id;
                        w.space_id = target;
                        Some(old_space)
                    },
                    None => None,
                };
                match old_space {
                    Some(old_space) => {
                        let ghost w0 = v0.tracker.lookup(f)->0;
                        let ghost v1 = MosaicView {
                            tracker: v0.tracker.with_window(f, TrackedWindow { space_id: target, ..w0 }),
                            ..v0
                        };
                        proof {
                            assert(self@ == v1);
                        }
                        if self.layouts.contains_key(&old_space) {
                            let mut engine = self.take_engine(old_space);
                            engine.remove_window(f);
                            self.put_engine(old_space, engine);
                            proof {
                                assert(self@.layouts =~= v1.engine_set(
                                    old_space,
                                    engine_without(v1.layouts[old_space], f),
                                ).layouts);
                            }
                        }
                        let ghost v2 = self@;
                        let mut engine = self.take_engine(target);
                        engine.add_window(f);
                        self.put_engine(target, engine);
                        proof {
                            assert(self@.layouts =~= v2.engine_set(
                                target,
                                v2.engine_for(target).with_window(f),
                            ).layouts);
                        }
                        let first = self.retile_space(old_space);
                        push_places(&mut effects, &first);
                        let second = self.retile_space(target);
                        push_places(&mut effects, &second);
                    },
                    None => {},
                }
                Reply { text, effects }
            },
        }
    }

    fn run_switch(&mut self, n: usize, spaces: &Vec<u64>) -> (r: Reply)
        ensures
            final(self)@ == old(self)@,
            answers(r, old(self)@.switch_outcome(n, spaces@)),
    {
        if n == 0 || n > spaces.len() {
            let mut text = with_number("error: space ", n as u64);
            text.append(" does not exist");
            return Reply { text, effects: Vec::new() };
        }
        let mut effects: Vec<Effect> = Vec::new();
        effects.push(Effect::SwitchToSpace { space_id: spaces[n - 1] });
        Reply { text: with_number("ok: switched to space ", n as u64), effects }
    }
}


impl Mosaic {
    fn run_layout(&mut self, a: u64, m: LayoutMode) -> (r: Reply)
        requires
            old(self).wf(),
        ensures
            final(self).wf(),
            final(self)@ == old(self)@.layout_outcome(a, m).state,
            answers(r, old(self)@.layout_outcome(a, m)),
    {
        let mut engine = self.take_engine(a);
        engine.set_mode(m);
        self.put_engine(a, engine);
        proof {
            assert(self@.layouts =~= old(self)@.engine_set(
                a,
                EngineView { mode: m, ..old(self)@.engine_for(a) },
            ).layouts);
        }
        let mut text = String::from_str("ok: layout set to ");
        let mode = mode_string(m);
        text.append(mode.as_str());
        self.retile_reply(a, text)
    }

    fn run_toggle_float(&mut self, a: u64) -> (r: Reply)
        requires
            old(self).wf(),
        ensures
            final(self).wf(),
            final(self)@ == old(self)@.toggle_float_outcome(a).state,
            answers(r, old(self)@.toggle_float_outcome(a)),
    {
        match self.focused_id() {
            None => reply_text("error: no focused window"),
            Some(f) => {
                self.tracker.toggle_floating(f);
                self.retile_reply(a, with_number("ok: toggled float for window ", f as u64))
            },
        }
    }

    fn run_rotate(&mut self, a: u64) -> (r: Reply)
        requires
            old(self).wf(),
        ensures
            final(self).wf(),
            final(self)@ == old(self)@.outcome(Command::Rotate, a, Seq::empty(), Seq::empty()).state,
            answers(r, old(self)@.outcome(Command::Rotate, a, Seq::empty(), Seq::empty())),
    {
        let mut engine = self.take_engine(a);
        engine.rotate_tree();
        self.put_engine(a, engine);
        proof {
            assert(self@.layouts =~= old(self)@.engine_set(
                a,
                EngineView { tree: old(self)@.engine_for(a).tree.rotated(), ..old(self)@.engine_for(a) },
            ).layouts);
        }
        self.retile_reply(a, String::from_str("ok: tree rotated"))
    }

    fn run_equalize(&mut self, a: u64) -> (r: Reply)
        requires
            old(self).wf(),
        ensures
            final(self).wf(),
            final(self)@ == old(self)@.outcome(Command::Equalize, a, Seq::empty(), Seq::empty()).state,
            answers(r, old(self)@.outcome(Command::Equalize, a, Seq::empty(), Seq::empty())),
    {
        let mut engine = self.take_engine(a);
        engine.equalize_tree();
        self.put_engine(a, engine);
        proof {
            assert(self@.layouts =~= old(self)@.engine_set(
                a,
                EngineView { tree: old(self)@.engine_for(a).tree.equalized(), ..old(self)@.engine_for(a) },
            ).layouts);
        }
        self.retile_reply(a, String::from_str("ok: tree equalized"))
    }

    fn run_resize(&mut self, a: u64, d: SplitDirection, delta: i64) -> (r: Reply)
        requires
            old(self).wf(),
        ensures
            final(self).wf(),
            final(self)@ == old(self)@.resize_outcome(a, d, delta).state,
            answers(r, old(self)@.resize_outcome(a, d, delta)),
    {
        match self.focused_id() {
            None => reply_text("error: no focused window"),
            Some(f) => {
                let mut engine = self.take_engine(a);
                engine.resize_window(f, d, delta);
                self.put_engine(a, engine);
                proof {
                    assert(self@.layouts =~= old(self)@.engine_set(
                        a,
                        EngineView {
                            tree: old(self)@.engine_for(a).tree.resized(f, d, delta as int),
                            ..old(self)@.engine_for(a)
                        },
                    ).layouts);
                }
                self.retile_reply(a, with_number("ok: resized window ", f as u64))
            },
        }
    }

    fn run_query(&self, q: QueryTarget, a: u64, spaces: &Vec<u64>) -> (r: Reply)
        requires
            self.wf(),
        ensures
            r.text@ == self@.query_text(q, a, spaces@),
            r.effects@ == Seq::<Effect>::empty(),
    {
        let json = match q {
            QueryTarget::Windows => {
                let ws = self.tracker.all_windows();
                let t = windows_json_string(&ws);
                proof {
                    assert(ws@.map_values(|w: &TrackedWindow| *w) =~= self@.tracker.windows);
                }
                t
            },
            QueryTarget::Spaces => spaces_json_string(spaces, a),
            QueryTarget::Focused => match self.tracker.get_focused() {
                Some(w) => focused_json_string(w),
                None => String::from_str("null"),
            },
        };
        let mut text = String::from_str("ok ");
        text.append(json.as_str());
        Reply { text, effects: Vec::new() }
    }

    /// Carries out a command in the given surroundings: changes the state
    /// as `outcome` says, and returns the answer with the work left for the
    /// window server and the accessibility API.
    pub fn execute(&mut self, cmd: Command, env: Environment) -> (r: Reply)
        requires
            old(self).wf(),
        ensures
            final(self).wf(),
            final(self)@ == old(self)@.outcome(cmd, env.active_space, env.spaces@, env.windows@).state,
            answers(r, old(self)@.outcome(cmd, env.active_space, env.spaces@, env.windows@)),
    {
        let a = env.active_space;
        match cmd {
            Command::Focus(d) => self.run_focus(a, d),
            Command::Swap(d) => self.run_swap(a, d),
            Command::MoveToSpace(n) => self.run_move(n, &env.spaces),
            Command::SwitchSpace(n) => self.run_switch(n, &env.spaces),
            Command::Layout(m) => self.run_layout(a, m),
            Command::ToggleFloat => self.run_toggle_float(a),
            Command::ToggleFullscreen => reply_text("ok: fullscreen toggle (not yet implemented)"),
            Command::Rotate => self.run_rotate(a),
            Command::Equalize => self.run_equalize(a),
            Command::Resize(d, delta) => self.run_resize(a, d, delta),
            Command::Retile => {
                self.tracker.refresh(env.windows);
                self.retile_reply(a, String::from_str("ok: retiled"))
            },
            Command::Query(q) => self.run_query(q, a, &env.spaces),
            Command::Quit => {
                let mut effects: Vec<Effect> = Vec::new();
                effects.push(Effect::Quit);
                Reply { text: String::new(), effects }
            },
        }
    }

    /// Reads a command line and carries it out. A line that is not understood
    /// changes nothing and is answered with the error.
    pub fn handle_command(&mut self, cmd: &str, env: Environment) -> (r: Reply)
        requires
            old(self).wf(),
        ensures
            final(self).wf(),
            match parsed(words(cmd@)) {
                Ok(c) => final(self)@ == old(self)@.outcome(
                    c,
                    env.active_space,
                    env.spaces@,
                    env.windows@,
                ).state && answers(
                    r,
                    old(self)@.outcome(c, env.active_space, env.spaces@, env.windows@),
                ),
                Err(e) => final(self)@ == old(self)@ && r.text@ == e && r.effects@ == Seq::<
                    Effect,
                >::empty(),
            },
    {
        match parse_command(cmd) {
            Ok(c) => self.execute(c, env),
            Err(e) => Reply { text: e, effects: Vec::new() },
        }
    }
}


/// Whether `s` begins with `p`.
pub open spec fn starts_with(s: Seq<char>, p: Seq<char>) -> bool {
    p.len() <= s.len() && s.subrange(0, p.len() as int) == p
}

/// Whether an answer reports success or failure, as the protocol's answers
/// to commands other than queries do.
pub open spec fn ok_or_error(s: Seq<char>) -> bool {
    starts_with(s, "ok"@) || starts_with(s, "error: "@)
}

proof fn lemma_starts_with_concat(a: Seq<char>, b: Seq<char>, p: Seq<char>)
    requires
        starts_with(a, p),
    ensures
        starts_with(a + b, p),
{
    assert((a + b).subrange(0, p.len() as int) =~= a.subrange(0, p.len() as int));
}

proof fn lemma_error_text(s: Seq<char>, rest: Seq<char>)
    requires
        s.len() >= 7,
        s[0] == 'e' && s[1] == 'r' && s[2] == 'r' && s[3] == 'o' && s[4] == 'r' && s[5] == ':' && s[6] == ' ',
    ensures
        starts_with(s, "error: "@),
        starts_with(s + rest, "error: "@),
        ok_or_error(s),
        ok_or_error(s + rest),
{
    reveal_strlit("error: ");
    assert(s.subrange(0, 7) =~= "error: "@);
    lemma_starts_with_concat(s, rest, "error: "@);
}

proof fn lemma_ok_text(s: Seq<char>, rest: Seq<char>)
    requires
        s.len() >= 2,
        s[0] == 'o' && s[1] == 'k',
    ensures
        starts_with(s, "ok"@),
        starts_with(s + rest, "ok"@),
        ok_or_error(s),
        ok_or_error(s + rest),
{
    reveal_strlit("ok");
    assert(s.subrange(0, 2) =~= "ok"@);
    lemma_starts_with_concat(s, rest, "ok"@);
}

/// Every line that is not understood is answered with an error; every
/// command other than `quit` (which is not answered) is answered with
/// `ok...` or `error: ...`.
pub proof fn law_answers_are_ok_or_error(
    v: MosaicView,
    ws: Seq<Seq<char>>,
    a: u64,
    spaces: Seq<u64>,
    windows: Seq<TrackedWindow>,
)
    ensures
        match parsed(ws) {
            Err(e) => starts_with(e, "error: "@),
            Ok(c) => !(c is Quit) ==> ok_or_error(v.outcome(c, a, spaces, windows).text),
        },
{
    reveal_strlit("error: empty command");
    reveal_strlit("error: focus requires a direction (north|south|east|west)");
    reveal_strlit("error: swap requires a direction (north|south|east|west)");
    reveal_strlit("error: move-to-space requires a space number");
    reveal_strlit("error: space requires a space number");
    reveal_strlit("error: layout requires a mode (bsp|monocle|master-stack)");
    reveal_strlit("error: toggle requires a target (float|fullscreen)");
    reveal_strlit("error: resize requires <direction> <delta>");
    reveal_strlit("error: query requires a target (windows|spaces|focused)");
    reveal_strlit("error: invalid direction '");
    reveal_strlit("error: invalid space number '");
    reveal_strlit("error: unknown layout mode '");
    reveal_strlit("error: unknown toggle target '");
    reveal_strlit("error: invalid delta '");
    reveal_strlit("error: unknown query target '");
    reveal_strlit("error: unknown command '");
    reveal_strlit("error: no window in that direction");
    reveal_strlit("error: no window to swap with in that direction");
    reveal_strlit("error: space ");
    reveal_strlit("error: no focused window");
    reveal_strlit("ok: focused window ");
    reveal_strlit("ok: swapped ");
    reveal_strlit("ok: moved window ");
    reveal_strlit("ok: switched to space ");
    reveal_strlit("ok: layout set to ");
    reveal_strlit("ok: toggled float for window ");
    reveal_strlit("ok: fullscreen toggle (not yet implemented)");
    reveal_strlit("ok: tree rotated");
    reveal_strlit("ok: tree equalized");
    reveal_strlit("ok: resized window ");
    reveal_strlit("ok: retiled");
    reveal_strlit("ok ");
    match parsed(ws) {
        Err(e) => {
            let args = ws.drop_first();
            if ws.len() > 0 {
                let w0 = if args.len() > 0 { args[0] } else { Seq::empty() };
                let w1 = if args.len() > 1 { args[1] } else { Seq::empty() };
                lemma_error_text("error: invalid direction '"@, w0);
                lemma_error_text("error: invalid direction '"@ + w0, "'"@);
                lemma_error_text("error: invalid space number '"@, w0);
                lemma_error_text("error: invalid space number '"@ + w0, "'"@);
                lemma_error_text("error: unknown layout mode '"@, w0);
                lemma_error_text("error: unknown layout mode '"@ + w0, "'"@);
                lemma_error_text("error: unknown toggle target '"@, w0);
                lemma_error_text("error: unknown toggle target '"@ + w0, "'"@);
                lemma_error_text("error: invalid delta '"@, w1);
                lemma_error_text("error: invalid delta '"@ + w1, "'"@);
                lemma_error_text("error: unknown query target '"@, w0);
                lemma_error_text("error: unknown query target '"@ + w0, "'"@);
                lemma_error_text("error: unknown command '"@, ws[0]);
                lemma_error_text("error: unknown command '"@ + ws[0], "'"@);
            }
            lemma_error_text("error: empty command"@, Seq::empty());
            lemma_error_text("error: focus requires a direction (north|south|east|west)"@, Seq::empty());
            lemma_error_text("error: swap requires a direction (north|south|east|west)"@, Seq::empty());
            lemma_error_text("error: move-to-space requires a space number"@, Seq::empty());
            lemma_error_text("error: space requires a space number"@, Seq::empty());
            lemma_error_text("error: layout requires a mode (bsp|monocle|master-stack)"@, Seq::empty());
            lemma_error_text("error: toggle requires a target (float|fullscreen)"@, Seq::empty());
            lemma_error_text("error: resize requires <direction> <delta>"@, Seq::empty());
            lemma_error_text("error: query requires a target (windows|spaces|focused)"@, Seq::empty());
        },
        Ok(c) => {
            let o = v.outcome(c, a, spaces, windows);
            lemma_error_text("error: no window in that direction"@, Seq::empty());
            lemma_error_text("error: no window to swap with in that direction"@, Seq::empty());
            lemma_error_text("error: no focused window"@, Seq::empty());
            lemma_ok_text("ok: fullscreen toggle (not yet implemented)"@, Seq::empty());
            lemma_ok_text("ok: tree rotated"@, Seq::empty());
            lemma_ok_text("ok: tree equalized"@, Seq::empty());
            lemma_ok_text("ok: retiled"@, Seq::empty());
            match c {
                Command::Focus(d) => {
                    if let Some(f) = focused_window_id(v.tracker) {
                        if let Some(t) = v.engine_for(a).neighbour_in(f, d) {
                            lemma_ok_text("ok: focused window "@, decimal(t as nat));
                        }
                    }
                },
                Command::Swap(d) => {
                    if let Some(f) = focused_window_id(v.tracker) {
                        if let Some(t) = v.engine_for(a).neighbour_in(f, d) {
                            let s1 = "ok: swapped "@ + decimal(f as nat);
                            let s2 = s1 + " with "@;
                            lemma_ok_text("ok: swapped "@, decimal(f as nat));
                            lemma_starts_with_concat(s1, " with "@, "ok"@);
                            lemma_starts_with_concat(s2, decimal(t as nat), "ok"@);
                        }
                    }
                },
                Command::MoveToSpace(n) => {
                    let s1 = "error: space "@ + decimal(n as nat);
                    let s2 = s1 + " does not exist (have "@;
                    let s3 = s2 + decimal(spaces.len());
                    lemma_error_text("error: space "@, decimal(n as nat));
                    lemma_starts_with_concat(s1, " does not exist (have "@, "error: "@);
                    lemma_starts_with_concat(s2, decimal(spaces.len()), "error: "@);
                    lemma_starts_with_concat(s3, ")"@, "error: "@);
                    if let Some(f) = focused_window_id(v.tracker) {
                        let t1 = "ok: moved window "@ + decimal(f as nat);
                        let t2 = t1 + " to space "@;
                        lemma_ok_text("ok: moved window "@, decimal(f as nat));
                        lemma_starts_with_concat(t1, " to space "@, "ok"@);
                        lemma_starts_with_concat(t2, decimal(n as nat), "ok"@);
                    }
                },
                Command::SwitchSpace(n) => {
                    let s1 = "error: space "@ + decimal(n as nat);
                    lemma_error_text("error: space "@, decimal(n as nat));
                    lemma_starts_with_concat(s1, " does not exist"@, "error: "@);
                    lemma_ok_text("ok: switched to space "@, decimal(n as nat));
                },
                Command::Layout(m) => {
                    lemma_ok_text("ok: layout set to "@, mode_text(m));
                },
                Command::ToggleFloat => {
                    if let Some(f) = focused_window_id(v.tracker) {
                        lemma_ok_text("ok: toggled float for window "@, decimal(f as nat));
                    }
                },
                Command::Resize(..) => {
                    if let Some(f) = focused_window_id(v.tracker) {
                        lemma_ok_text("ok: resized window "@, decimal(f as nat));
                    }
                },
                Command::Query(q) => {
                    lemma_ok_text("ok "@, v.query_json(q, a, spaces));
                },
                _ => {},
            }
        },
    }
}

/// A query only reads: the state stays as it was, and nothing is left to do.
pub proof fn law_query_changes_nothing(
    v: MosaicView,
    q: QueryTarget,
    a: u64,
    spaces: Seq<u64>,
    windows: Seq<TrackedWindow>,
)
    ensures
        v.outcome(Command::Query(q), a, spaces, windows).state == v,
        v.outcome(Command::Query(q), a, spaces, windows).effects == Seq::<Effect>::empty(),
{
}


/// Law: the action of every default keybinding is two words and a command
/// the server understands: focus and swap name a direction, layout names
/// `bsp` or `monocle`, toggle names `float` or `fullscreen`, and the others
/// rotate or equalize the tree or name a space.
pub proof fn law_default_keybindings_are_commands(i: int)
    requires
        0 <= i < default_keybinding_table().len(),
    ensures
        parsed(words(default_keybinding_table()[i].2)) is Ok,
        words(default_keybinding_table()[i].2).len() == 2,
        ({
            let w = words(default_keybinding_table()[i].2);
            &&& w[0] == "focus"@ || w[0] == "swap"@ || w[0] == "toggle"@ || w[0] == "layout"@
                || w[0] == "rotate"@ || w[0] == "equalize"@ || w[0] == "space"@ || w[0]
                == "move-to-space"@
            &&& (w[0] == "focus"@ || w[0] == "swap"@) ==> direction_of(w[1]) is Some
            &&& w[0] == "layout"@ ==> (w[1] == "bsp"@ || w[1] == "monocle"@)
            &&& w[0] == "toggle"@ ==> (w[1] == "float"@ || w[1] == "fullscreen"@)
            &&& (w[0] == "space"@ || w[0] == "move-to-space"@) ==> parse_usize_spec(w[1]) is Some
        }),
{
    let t = default_keybinding_table();
    reveal_strlit("1");
    reveal_strlit("2");
    reveal_strlit("3");
    reveal_strlit("4");
    reveal_strlit("5");
    reveal_strlit("bsp");
    reveal_strlit("down");
    reveal_strlit("east");
    reveal_strlit("equalize");
    reveal_strlit("equalize tree");
    reveal_strlit("float");
    reveal_strlit("focus");
    reveal_strlit("focus east");
    reveal_strlit("focus north");
    reveal_strlit("focus south");
    reveal_strlit("focus west");
    reveal_strlit("fullscreen");
    reveal_strlit("layout");
    reveal_strlit("layout bsp");
    reveal_strlit("layout monocle");
    reveal_strlit("left");
    reveal_strlit("master-stack");
    reveal_strlit("master_stack");
    reveal_strlit("monocle");
    reveal_strlit("move-to-space");
    reveal_strlit("move-to-space 1");
    reveal_strlit("move-to-space 2");
    reveal_strlit("move-to-space 3");
    reveal_strlit("move-to-space 4");
    reveal_strlit("move-to-space 5");
    reveal_strlit("north");
    reveal_strlit("right");
    reveal_strlit("rotate");
    reveal_strlit("rotate tree");
    reveal_strlit("south");
    reveal_strlit("space");
    reveal_strlit("space 1");
    reveal_strlit("space 2");
    reveal_strlit("space 3");
    reveal_strlit("space 4");
    reveal_strlit("space 5");
    reveal_strlit("swap");
    reveal_strlit("swap east");
    reveal_strlit("swap north");
    reveal_strlit("swap south");
    reveal_strlit("swap west");
    reveal_strlit("toggle");
    reveal_strlit("toggle float");
    reveal_strlit("toggle fullscreen");
    reveal_strlit("tree");
    reveal_strlit("up");
    reveal_strlit("west");
    reveal_with_fuel(digits_value, 2);
    assert("focus west"@ =~= "focus"@ + seq![' '] + "west"@);
    lemma_words_of_two("focus"@, "west"@);
    assert("focus south"@ =~= "focus"@ + seq![' '] + "south"@);
    lemma_words_of_two("focus"@, "south"@);
    assert("focus north"@ =~= "focus"@ + seq![' '] + "north"@);
    lemma_words_of_two("focus"@, "north"@);
    assert("focus east"@ =~= "focus"@ + seq![' '] + "east"@);
    lemma_words_of_two("focus"@, "east"@);
    assert("swap west"@ =~= "swap"@ + seq![' '] + "west"@);
    lemma_words_of_two("swap"@, "west"@);
    assert("swap south"@ =~= "swap"@ + seq![' '] + "south"@);
    lemma_words_of_two("swap"@, "south"@);
    assert("swap north"@ =~= "swap"@ + seq![' '] + "north"@);
    lemma_words_of_two("swap"@, "north"@);
    assert("swap east"@ =~= "swap"@ + seq![' '] + "east"@);
    lemma_words_of_two("swap"@, "east"@);
    assert("toggle fullscreen"@ =~= "toggle"@ + seq![' '] + "fullscreen"@);
    lemma_words_of_two("toggle"@, "fullscreen"@);
    assert("toggle float"@ =~= "toggle"@ + seq![' '] + "float"@);
    lemma_words_of_two("toggle"@, "float"@);
    assert("layout bsp"@ =~= "layout"@ + seq![' '] + "bsp"@);
    lemma_words_of_two("layout"@, "bsp"@);
    assert("layout monocle"@ =~= "layout"@ + seq![' '] + "monocle"@);
    lemma_words_of_two("layout"@, "monocle"@);
    assert("rotate tree"@ =~= "rotate"@ + seq![' '] + "tree"@);
    lemma_words_of_two("rotate"@, "tree"@);
    assert("equalize tree"@ =~= "equalize"@ + seq![' '] + "tree"@);
    lemma_words_of_two("equalize"@, "tree"@);
    assert("space 1"@ =~= "space"@ + seq![' '] + "1"@);
    lemma_words_of_two("space"@, "1"@);
    assert("space 2"@ =~= "space"@ + seq![' '] + "2"@);
    lemma_words_of_two("space"@, "2"@);
    assert("space 3"@ =~= "space"@ + seq![' '] + "3"@);
    lemma_words_of_two("space"@, "3"@);
    assert("space 4"@ =~= "space"@ + seq![' '] + "4"@);
    lemma_words_of_two("space"@, "4"@);
    assert("space 5"@ =~= "space"@ + seq![' '] + "5"@);
    lemma_words_of_two("space"@, "5"@);
    assert("move-to-space 1"@ =~= "move-to-space"@ + seq![' '] + "1"@);
    lemma_words_of_two("move-to-space"@, "1"@);
    assert("move-to-space 2"@ =~= "move-to-space"@ + seq![' '] + "2"@);
    lemma_words_of_two("move-to-space"@, "2"@);
    assert("move-to-space 3"@ =~= "move-to-space"@ + seq![' '] + "3"@);
    lemma_words_of_two("move-to-space"@, "3"@);
    assert("move-to-space 4"@ =~= "move-to-space"@ + seq![' '] + "4"@);
    lemma_words_of_two("move-to-space"@, "4"@);
    assert("move-to-space 5"@ =~= "move-to-space"@ + seq![' '] + "5"@);
    lemma_words_of_two("move-to-space"@, "5"@);
    assert(parsed(words(t[i].2)) is Ok);
}

/// Law: each compass direction is named by its compass word and its arrow-key
/// word, and by no other word.
pub proof fn law_direction_words(w: Seq<char>)
    ensures
        direction_of(w) == Some(Direction::North) <==> (w == "north"@ || w == "up"@),
        direction_of(w) == Some(Direction::South) <==> (w == "south"@ || w == "down"@),
        direction_of(w) == Some(Direction::East) <==> (w == "east"@ || w == "right"@),
        direction_of(w) == Some(Direction::West) <==> (w == "west"@ || w == "left"@),
{
    reveal_strlit("north");
    reveal_strlit("up");
    reveal_strlit("south");
    reveal_strlit("down");
    reveal_strlit("east");
    reveal_strlit("right");
    reveal_strlit("west");
    reveal_strlit("left");
    assert("north"@[0] == 'n' && "up"@[0] == 'u' && "south"@[0] == 's' && "down"@[0] == 'd');
    assert("east"@[0] == 'e' && "right"@[0] == 'r' && "west"@[0] == 'w' && "left"@[0] == 'l');
}

/// Law: `query windows` lists every tracked window, in order: its answer is
/// `ok ` and a JSON array with one item per tracked window, the `k`-th
/// describing the `k`-th window, whether it is tiled, floating or ignored.
pub proof fn law_query_windows_lists_every_window(v: MosaicView, a: u64, spaces: Seq<u64>)
    ensures
        v.outcome(Command::Query(QueryTarget::Windows), a, spaces, Seq::empty()).text == "ok "@
            + json_array(
            Seq::new(v.tracker.windows.len(), |k: int| window_json(v.tracker.windows[k])),
        ),
        v.outcome(Command::Query(QueryTarget::Windows), a, spaces, Seq::empty()).state == v,
{
    assert(v.tracker.windows.map_values(|w: TrackedWindow| window_json(w)) =~= Seq::new(
        v.tracker.windows.len(),
        |k: int| window_json(v.tracker.windows[k]),
    ));
}

} // verus!
