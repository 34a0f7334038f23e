//! What the panels show: the beat cells of the output position, each output's
//! status, and which rows the input and output panels list.
use crate::engine::OutputPosition;
use crate::ports::{names, same_chars};
use vstd::prelude::*;

verus! {

/// Clock ticks per beat at 24 PPQN.
pub const TICKS_PER_BEAT: u32 = 24;
/// How many ticks beat 1 of the phrase stays highlighted.
pub const DOWNBEAT_FLASH_TICKS: u32 = 4;

/// The lit beat cell (0–3 within a 4/4 bar) and whether it flashes, which only
/// beat 1 of bar 1 of the phrase does, for its first ticks.
#[derive(Debug, Clone, Copy, PartialEq, Eq, Structural)]
pub struct BeatCell {
    pub beat: u32,
    pub flash: bool,
}

pub open spec fn beat_cell_of(pos: OutputPosition) -> BeatCell {
    let beat = (pos.tick_in_bar / TICKS_PER_BEAT) as u32;
    BeatCell {
        beat,
        flash: beat == 0 && pos.bar_in_phrase == 0 && pos.tick_in_bar < DOWNBEAT_FLASH_TICKS,
    }
}

/// The beat cell for an output position.
pub fn beat_cell(pos: OutputPosition) -> (r: BeatCell)
    ensures
        r == beat_cell_of(pos),
{
    let beat = pos.tick_in_bar / TICKS_PER_BEAT;
    BeatCell {
        beat,
        flash: beat == 0 && pos.bar_in_phrase == 0 && pos.tick_in_bar < DOWNBEAT_FLASH_TICKS,
    }
}

/// The four beat cells of a bar at 24 PPQN: for a tick within its bar, the lit
/// cell is the beat the tick falls in — one of the four, lit from tick
/// `24·beat` to just before `24·(beat + 1)`, so it moves on exactly at ticks
/// 24, 48 and 72 — and only the first 4 ticks of bar 1 of the quantum flash.
pub proof fn lemma_beat_cells(pos: OutputPosition)
    requires
        pos.tick_in_bar < 96,
    ensures
        beat_cell_of(pos).beat < 4,
        24 * beat_cell_of(pos).beat <= pos.tick_in_bar < 24 * (beat_cell_of(pos).beat + 1),
        beat_cell_of(pos).flash == (pos.tick_in_bar < 4 && pos.bar_in_phrase == 0),
{
}

/// Status shown in an output's row.
#[derive(Debug, Clone, Copy, PartialEq, Eq, Structural)]
pub enum OutputState {
    Disabled,
    Missing,
    Connected,
    NotConnected,
}

/// An output's status: disabled, else missing if its port is absent, else
/// connected or not as the engine reports.
pub fn output_state(enabled: bool, present: bool, connected: bool) -> (r: OutputState)
    ensures
        r == if !enabled {
            OutputState::Disabled
        } else if !present {
            OutputState::Missing
        } else if connected {
            OutputState::Connected
        } else {
            OutputState::NotConnected
        },
{
    if !enabled {
        OutputState::Disabled
    } else if !present {
        OutputState::Missing
    } else if connected {
        OutputState::Connected
    } else {
        OutputState::NotConnected
    }
}

/// The hardware rows of the input panel: every live input port, plus the
/// selected hardware input at the end when it has gone missing, so the
/// selection does not silently vanish.
pub fn input_rows(live: &Vec<String>, selected: Option<&str>) -> (r: Vec<String>)
    ensures
        names(r@) == match selected {
            Some(s) => if names(live@).contains(s@) {
                names(live@)
            } else {
                names(live@).push(s@)
            },
            None => names(live@),
        },
{
    let mut rows = live.clone();
    assert(rows@ == live@);
    match selected {
        Some(s) => {
            if !crate::ports::port_listed(s, live.as_slice()) {
                let ghost before = rows@;
                rows.push(s.to_owned());
                assert(names(rows@) =~= names(before).push(s@));
            }
        },
        None => {},
    }
    rows
}

/// The rows of the output panel: the app's own virtual output first, then every
/// other known output name, in the given order.
pub fn output_rows(virtual_out: &str, known: &Vec<String>) -> (r: Vec<String>)
    ensures
        names(r@) == seq![virtual_out@] + crate::ports::without(names(known@), virtual_out@),
{
    let mut rows: Vec<String> = Vec::new();
    rows.push(virtual_out.to_owned());
    let mut i: usize = 0;
    while i < known.len()
        invariant
            i <= known@.len(),
            names(rows@) == seq![virtual_out@] + crate::ports::without(
                names(known@.subrange(0, i as int)),
                virtual_out@,
            ),
        decreases known@.len() - i,
    {
        let ghost before = known@.subrange(0, i as int);
        assert(known@.subrange(0, i as int + 1).drop_last() == before);
        assert(names(known@.subrange(0, i as int + 1)).drop_last() =~= names(before));
        if !same_chars(known[i].as_str(), virtual_out) {
            let ghost old_rows = rows@;
            rows.push(known[i].clone());
            assert(names(rows@) =~= names(old_rows).push(known@[i as int]@));
        }
        i = i + 1;
    }
    assert(known@.subrange(0, known@.len() as int) == known@);
    rows
}

} // verus!
