//! The editing layer's mode and option state.
//!
//! These types carry no engine logic: they record which mode the surrounding
//! application is in and the plain values its panels edit — the start node,
//! the snapping increment, and the set of absorbing target nodes.

use vstd::prelude::*;

verus! {

use vstd::utf8::encode_utf8;

/// The application's interaction mode.
#[derive(Debug, Clone, Copy, PartialEq, Eq, Structural)]
pub enum Mode {
    Edit,
    Classical,
    Quantum,
}

impl Default for Mode {
    fn default() -> (r: Mode)
        ensures
            r == Mode::Edit,
    {
        Mode::Edit
    }
}

impl Mode {
    pub fn name(&self) -> (r: &'static str)
        ensures
            r@ == (match self {
                Mode::Edit => "Edit"@,
                Mode::Classical => "Classical"@,
                Mode::Quantum => "Quantum"@,
            }),
    {
        match self {
            Mode::Edit => "Edit",
            Mode::Classical => "Classical",
            Mode::Quantum => "Quantum",
        }
    }

    pub fn options_name(&self) -> (r: &'static str)
        ensures
            r@ == (match self {
                Mode::Edit => "Editing Options"@,
                Mode::Classical => "Simulation Options (Classical)"@,
                Mode::Quantum => "Simulation Options (Quantum)"@,
            }),
    {
        match self {
            Mode::Edit => "Editing Options",
            Mode::Classical => "Simulation Options (Classical)",
            Mode::Quantum => "Simulation Options (Quantum)",
        }
    }
}

/// The snapping increment of the editing canvas.
#[derive(Debug, Clone, Copy, PartialEq, Eq, Structural)]
pub enum Snap {
    NoSnap,
    Half,
    One,
    Five,
    Ten,
}

impl Default for Snap {
    fn default() -> (r: Snap)
        ensures
            r == Snap::NoSnap,
    {
        Snap::NoSnap
    }
}

impl Snap {
    /// The increment as the display layer writes it.
    pub fn as_num_str(&self) -> (r: String)
        ensures
            r@ == (match self {
                Snap::NoSnap => "None"@,
                Snap::Half => "0.5"@,
                Snap::One => "1.0"@,
                Snap::Five => "5.0"@,
                Snap::Ten => "10.0"@,
            }),
    {
        match self {
            Snap::NoSnap => "None".to_owned(),
            Snap::Half => "0.5".to_owned(),
            Snap::One => "1.0".to_owned(),
            Snap::Five => "5.0".to_owned(),
            Snap::Ten => "10.0".to_owned(),
        }
    }
}

/// Options of the editing mode.
#[derive(Debug, Clone, Copy, PartialEq, Eq, Structural, Default)]
pub struct EditOptions {
    pub snap: Snap,
}

/// Options of the classical simulation mode.
#[derive(Debug, Clone, Copy, PartialEq, Eq, Structural, Default)]
pub struct ClassicalOptions {}

/// Options of the quantum simulation mode: the text the user typed and the
/// target node indices parsed from it.
#[derive(Debug, Clone, Default)]
pub struct QuantumOptions {
    pub target_node_text: String,
    pub target_node_indexes: Vec<usize>,
}

/// A byte of ASCII whitespace.
pub open spec fn ws_byte(b: u8) -> bool {
    b == 32 || (9 <= b <= 13)
}

/// An ASCII decimal digit byte.
pub open spec fn digit_byte(b: u8) -> bool {
    48 <= b <= 57
}

/// The node indices denoted by a byte string: maximal runs of non-whitespace
/// bytes are tokens, and every token made of digits whose value fits the
/// machine's index range contributes that value, in order.  `cur` carries the
/// value and validity of the token being read, `acc` the values read so far.
pub open spec fn parse_targets_from(
    bytes: Seq<u8>,
    i: int,
    cur: Option<(usize, bool)>,
    acc: Seq<usize>,
) -> Seq<usize>
    decreases bytes.len() - i,
{
    if i < 0 || i >= bytes.len() {
        match cur {
            Some((v, valid)) => if valid {
                acc.push(v)
            } else {
                acc
            },
            None => acc,
        }
    } else {
        let b = bytes[i];
        if ws_byte(b) {
            match cur {
                Some((v, valid)) => if valid {
                    parse_targets_from(bytes, i + 1, None, acc.push(v))
                } else {
                    parse_targets_from(bytes, i + 1, None, acc)
                },
                None => parse_targets_from(bytes, i + 1, None, acc),
            }
        } else {
            let cur2 = match cur {
                None => if digit_byte(b) {
                    Some(((b - 48) as usize, true))
                } else {
                    Some((0, false))
                },
                Some((v, valid)) => if digit_byte(b) && valid && v * 10 + (b - 48) <= usize::MAX {
                    Some(((v * 10 + (b - 48)) as usize, true))
                } else {
                    Some((v, false))
                },
            };
            parse_targets_from(bytes, i + 1, cur2, acc)
        }
    }
}

/// The node indices denoted by a text.
pub open spec fn parse_targets(chars: Seq<char>) -> Seq<usize> {
    parse_targets_from(encode_utf8(chars), 0, None, Seq::empty())
}

/// Parse whitespace-separated node indices; tokens that are not plain
/// in-range decimal numbers are skipped.
pub fn parse_target_indexes(text: &str) -> (r: Vec<usize>)
    ensures
        r@ == parse_targets(text@),
{
    let bytes = text.as_bytes();
    let ghost bs = bytes@;
    let mut acc: Vec<usize> = Vec::new();
    let mut cur: Option<(usize, bool)> = None;
    let mut i: usize = 0;
    while i < bytes.len()
        invariant
            bs == bytes@,
            0 <= i <= bs.len(),
            parse_targets_from(bs, i as int, cur, acc@) == parse_targets_from(
                bs,
                0,
                None::<(usize, bool)>,
                Seq::empty(),
            ),
        decreases bs.len() - i,
    {
        let b = bytes[i];
        if b == 32 || (9 <= b && b <= 13) {
            match cur {
                Some((v, valid)) => {
                    if valid {
                        acc.push(v);
                    }
                    cur = None;
                },
                None => {},
            }
        } else {
            cur = match cur {
                None => {
                    if 48 <= b && b <= 57 {
                        Some(((b - 48) as usize, true))
                    } else {
                        Some((0, false))
                    }
                },
                Some((v, valid)) => {
                    if 48 <= b && b <= 57 && valid && v <= (usize::MAX - ((b - 48) as usize)) / 10
                    {
                        proof {
                            assert(v * 10 + (b - 48) <= usize::MAX) by (nonlinear_arith)
                                requires
                                    v <= (usize::MAX - ((b - 48) as usize)) / 10,
                                    usize::MAX >= 10,
                                    0 <= (b - 48) < 10,
                            ;
                        }
                        Some((v * 10 + ((b - 48) as usize), true))
                    } else {
                        proof {
                            if 48 <= b && b <= 57 && valid {
                                assert(!(v * 10 + (b - 48) <= usize::MAX)) by (nonlinear_arith)
                                    requires
                                        !(v <= (usize::MAX - ((b - 48) as usize)) / 10),
                                        0 <= (b - 48) < 10,
                                        v >= 0,
                                ;
                            }
                        }
                        Some((v, false))
                    }
                },
            };
        }
        i = i + 1;
    }
    match cur {
        Some((v, valid)) => {
            if valid {
                acc.push(v);
            }
        },
        None => {},
    }
    acc
}

impl QuantumOptions {
    /// Re-derive the target node indices from the typed text.
    pub fn update_target_node_indexes(&mut self)
        ensures
            final(self).target_node_text == old(self).target_node_text,
            final(self).target_node_indexes@ == parse_targets(old(self).target_node_text@),
    {
        self.target_node_indexes = parse_target_indexes(self.target_node_text.as_str());
    }
}

/// The option blocks of the three modes.
#[derive(Debug, Clone, Default)]
pub struct ModeOptions {
    pub edit: EditOptions,
    pub classical: ClassicalOptions,
    pub quantum: QuantumOptions,
}

/// Options shared by both simulation modes.
#[derive(Debug, Clone)]
pub struct GenericComputationOptions {
    pub start_node_idx: usize,
    pub start_node_idx_text_field: String,
    pub previous_start_node_idx_text_field: String,
}

impl Default for GenericComputationOptions {
    fn default() -> (r: GenericComputationOptions)
        ensures
            r.start_node_idx == 0,
            r.start_node_idx_text_field@ == "0"@,
            r.previous_start_node_idx_text_field@ == "0"@,
    {
        GenericComputationOptions {
            start_node_idx: 0,
            start_node_idx_text_field: "0".to_owned(),
            previous_start_node_idx_text_field: "0".to_owned(),
        }
    }
}

/// The top-level option state: the active mode, the pending mode change,
/// and the per-mode options.
#[derive(Debug, Clone, Default)]
pub struct Options {
    pub mode: Mode,
    pub mode_change_data: Option<(Mode, Mode)>,
    pub specific: ModeOptions,
    pub generic: GenericComputationOptions,
}

impl Options {
    /// Switch the active mode, remembering the transition so the canvas can
    /// react; switching to the current mode records nothing.
    pub fn set_mode(&mut self, mode: Mode)
        ensures
            final(self).mode == mode,
            old(self).mode == mode ==> *final(self) == *old(self),
            old(self).mode != mode ==> final(self).mode_change_data == Some(
                (old(self).mode, mode),
            ),
            final(self).specific == old(self).specific,
            final(self).generic == old(self).generic,
    {
        if self.mode == mode {
            return ;
        }
        self.mode_change_data = Some((self.mode, mode));
        self.mode = mode;
    }

    /// Forget a recorded mode transition.
    pub fn clear_mode_change_data(&mut self)
        ensures
            *final(self) == (Options { mode_change_data: None, ..*old(self) }),
    {
        self.mode_change_data = None;
    }
}

} // verus!
