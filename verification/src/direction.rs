//! The direction vocabulary.
//!
//! One closed enumeration stands for the four cardinal directions, with
//! three explicit token mappings — one per layer — so the vocabularies
//! cannot silently drift apart: the window manager's movement tokens
//! (`l`, `r`, `u`, `d`), the terminal emulator's neighbor tokens (`left`,
//! `right`, `top`, `bottom`), and the multiplexer's pane tokens (`L`, `R`,
//! `U`, `D`).  The command-line argument aliases (`h`/`left`, `l`/`r`/
//! `right`, `k`/`u`/`up`, `j`/`d`/`down`) parse into the same enumeration.

use vstd::prelude::*;

use crate::bytes::eq_slice;

verus! {

#[derive(Clone, Copy, PartialEq, Eq, Structural, Debug)]
pub enum Direction {
    Left,
    Right,
    Up,
    Down,
}

/// Window-manager movement token: the bytes `l`, `r`, `u`, `d`.
pub open spec fn spec_wm_token(d: Direction) -> u8 {
    match d {
        Direction::Left => 108,
        Direction::Right => 114,
        Direction::Up => 117,
        Direction::Down => 100,
    }
}

/// Multiplexer pane-select token: the bytes `L`, `R`, `U`, `D`.
pub open spec fn spec_mux_token(d: Direction) -> u8 {
    match d {
        Direction::Left => 76,
        Direction::Right => 82,
        Direction::Up => 85,
        Direction::Down => 68,
    }
}

/// Terminal-emulator neighbor token: `left`, `right`, `top`, `bottom`.
pub open spec fn spec_emulator_token(d: Direction) -> Seq<u8> {
    match d {
        Direction::Left => seq![108u8, 101u8, 102u8, 116u8],
        Direction::Right => seq![114u8, 105u8, 103u8, 104u8, 116u8],
        Direction::Up => seq![116u8, 111u8, 112u8],
        Direction::Down => seq![98u8, 111u8, 116u8, 116u8, 111u8, 109u8],
    }
}

/// Command-line aliases: `h`/`left`, `l`/`right`/`r`, `k`/`up`/`u`,
/// `j`/`down`/`d`; anything else is not a direction.
pub open spec fn spec_parse_direction(arg: Seq<u8>) -> Option<Direction> {
    if arg == seq![104u8] || arg == spec_emulator_token(Direction::Left) {
        Some(Direction::Left)
    } else if arg == seq![108u8] || arg == seq![114u8, 105u8, 103u8, 104u8, 116u8] || arg == seq![
        114u8,
    ] {
        Some(Direction::Right)
    } else if arg == seq![107u8] || arg == seq![117u8, 112u8] || arg == seq![117u8] {
        Some(Direction::Up)
    } else if arg == seq![106u8] || arg == seq![100u8, 111u8, 119u8, 110u8] || arg == seq![
        100u8,
    ] {
        Some(Direction::Down)
    } else {
        None
    }
}

pub fn wm_token(d: Direction) -> (r: u8)
    ensures
        r == spec_wm_token(d),
{
    match d {
        Direction::Left => 108,
        Direction::Right => 114,
        Direction::Up => 117,
        Direction::Down => 100,
    }
}

pub fn mux_token(d: Direction) -> (r: u8)
    ensures
        r == spec_mux_token(d),
{
    match d {
        Direction::Left => 76,
        Direction::Right => 82,
        Direction::Up => 85,
        Direction::Down => 68,
    }
}

pub fn emulator_token(d: Direction) -> (r: Vec<u8>)
    ensures
        r@ == spec_emulator_token(d),
{
    let mut v: Vec<u8> = Vec::new();
    match d {
        Direction::Left => {
            v.push(108u8);
            v.push(101u8);
            v.push(102u8);
            v.push(116u8);
        },
        Direction::Right => {
            v.push(114u8);
            v.push(105u8);
            v.push(103u8);
            v.push(104u8);
            v.push(116u8);
        },
        Direction::Up => {
            v.push(116u8);
            v.push(111u8);
            v.push(112u8);
        },
        Direction::Down => {
            v.push(98u8);
            v.push(111u8);
            v.push(116u8);
            v.push(116u8);
            v.push(111u8);
            v.push(109u8);
        },
    }
    proof {
        assert(v@ =~= spec_emulator_token(d));
    }
    v
}

/// Parses a command-line direction argument, exactly as
/// `spec_parse_direction` describes.
pub fn parse_direction(arg: &Vec<u8>) -> (r: Option<Direction>)
    ensures
        r == spec_parse_direction(arg@),
{
    let h: [u8; 1] = [104];
    let left: [u8; 4] = [108, 101, 102, 116];
    let l: [u8; 1] = [108];
    let right: [u8; 5] = [114, 105, 103, 104, 116];
    let rr: [u8; 1] = [114];
    let kk: [u8; 1] = [107];
    let up: [u8; 2] = [117, 112];
    let uu: [u8; 1] = [117];
    let j: [u8; 1] = [106];
    let down: [u8; 4] = [100, 111, 119, 110];
    let dd: [u8; 1] = [100];
    proof {
        assert(h@ =~= seq![104u8]);
        assert(left@ =~= spec_emulator_token(Direction::Left));
        assert(l@ =~= seq![108u8]);
        assert(right@ =~= seq![114u8, 105u8, 103u8, 104u8, 116u8]);
        assert(rr@ =~= seq![114u8]);
        assert(kk@ =~= seq![107u8]);
        assert(up@ =~= seq![117u8, 112u8]);
        assert(uu@ =~= seq![117u8]);
        assert(j@ =~= seq![106u8]);
        assert(down@ =~= seq![100u8, 111u8, 119u8, 110u8]);
        assert(dd@ =~= seq![100u8]);
    }
    if eq_slice(arg, h.as_slice()) || eq_slice(arg, left.as_slice()) {
        Some(Direction::Left)
    } else if eq_slice(arg, l.as_slice()) || eq_slice(arg, right.as_slice()) || eq_slice(
        arg,
        rr.as_slice(),
    ) {
        Some(Direction::Right)
    } else if eq_slice(arg, kk.as_slice()) || eq_slice(arg, up.as_slice()) || eq_slice(
        arg,
        uu.as_slice(),
    ) {
        Some(Direction::Up)
    } else if eq_slice(arg, j.as_slice()) || eq_slice(arg, down.as_slice()) || eq_slice(
        arg,
        dd.as_slice(),
    ) {
        Some(Direction::Down)
    } else {
        None
    }
}

} // verus!
