//! Decisions of the VT byte pump: what each control byte, CSI sequence and
//! OSC string does to a [`TerminalGrid`], and what the terminal replies.

use vstd::prelude::*;
use vstd::utf8::{decode_utf8, valid_utf8};

use crate::grid::{max1, min_u16, step_to, GridView, TerminalGrid};

verus! {

/// Events a session reports to the multiplexer.
pub enum PtyEvent {
    Output,
    Bell,
    Title(String),
    Exit,
}

/// Decimal digits of `n`, as ASCII bytes.
pub open spec fn decimal(n: nat) -> Seq<u8>
    decreases n,
{
    if n < 10 {
        seq![(48 + n) as u8]
    } else {
        decimal(n / 10).push((48 + n % 10) as u8)
    }
}

/// Append the decimal digits of `n`.
pub fn push_decimal(out: &mut Vec<u8>, n: u32)
    ensures
        final(out)@ == old(out)@ + decimal(n as nat),
    decreases n,
{
    if n < 10 {
        out.push((48 + n) as u8);
        proof {
            assert(final(out)@ =~= old(out)@ + decimal(n as nat));
        }
    } else {
        push_decimal(out, n / 10);
        out.push((48 + n % 10) as u8);
        proof {
            assert(final(out)@ =~= old(out)@ + decimal(n as nat));
        }
    }
}

/// Primary device attributes reply (VT220-ish with color).
pub open spec fn primary_da_reply() -> Seq<u8> {
    seq![0x1b, 0x5b, 0x3f, 0x36, 0x32, 0x3b, 0x31, 0x3b, 0x32, 0x3b, 0x36, 0x3b, 0x32, 0x32, 0x63]
}

/// Secondary device attributes reply.
pub open spec fn secondary_da_reply() -> Seq<u8> {
    seq![0x1b, 0x5b, 0x3e, 0x30, 0x3b, 0x31, 0x30, 0x3b, 0x31, 0x63]
}

/// Device status "OK" reply.
pub open spec fn status_ok_reply() -> Seq<u8> {
    seq![0x1b, 0x5b, 0x30, 0x6e]
}

/// Cursor position report for 1-based `(row, col)`.
pub open spec fn cursor_report(row: nat, col: nat) -> Seq<u8> {
    seq![0x1b, 0x5b] + decimal(row) + seq![0x3b] + decimal(col) + seq![0x52]
}

/// The first parameter if positive, else `default`.
pub open spec fn first_or(params: Seq<u16>, default: u16) -> u16 {
    if params.len() > 0 && params[0] > 0 {
        params[0]
    } else {
        default
    }
}

/// Parameter `i`, or `default` when absent.
pub open spec fn param_or(params: Seq<u16>, i: int, default: u16) -> u16 {
    if i < params.len() {
        params[i]
    } else {
        default
    }
}

/// A CSI sequence answered with a reply instead of a grid change.
pub open spec fn csi_reply(g: GridView, params: Seq<u16>, inter: Seq<u8>, action: char) -> Option<Seq<u8>> {
    if action == 'c' && inter.len() == 0 {
        Some(primary_da_reply())
    } else if action == 'c' && inter == seq![0x3eu8] {
        Some(secondary_da_reply())
    } else if action == 'n' && inter.len() == 0 && param_or(params, 0, 0) == 5 {
        Some(status_ok_reply())
    } else if action == 'n' && inter.len() == 0 && param_or(params, 0, 0) == 6 {
        Some(
            cursor_report(
                g.cursor_row as nat + 1,
                min_u16(g.cursor_col, (g.cols - 1) as u16) as nat + 1,
            ),
        )
    } else {
        None
    }
}

/// All parameters as SGR numbers.
pub open spec fn params_i64(params: Seq<u16>) -> Seq<i64> {
    params.map_values(|p: u16| p as i64)
}

/// Effect of a CSI sequence on the grid.
pub open spec fn csi_effect(g: GridView, params: Seq<u16>, inter: Seq<u8>, action: char) -> GridView {
    if csi_reply(g, params, inter, action) is Some {
        g
    } else if action == 'A' {
        let n = max1(first_or(params, 1));
        g.with_cursor_row((if g.cursor_row >= n { g.cursor_row - n } else { 0 }) as u16)
    } else if action == 'B' {
        let n = max1(first_or(params, 1));
        g.with_cursor_row(step_to(g.cursor_row, n, (g.rows - 1) as u16))
    } else if action == 'C' {
        let n = max1(first_or(params, 1));
        g.with_cursor_col(step_to(g.cursor_col, n, (g.cols - 1) as u16))
    } else if action == 'D' {
        let n = max1(first_or(params, 1));
        g.with_cursor_col((if g.cursor_col >= n { g.cursor_col - n } else { 0 }) as u16)
    } else if action == 'H' || action == 'f' {
        let row = max1(param_or(params, 0, 1));
        let col = max1(param_or(params, 1, 1));
        g.with_cursor_row(min_u16((row - 1) as u16, (g.rows - 1) as u16)).with_cursor_col(
            min_u16((col - 1) as u16, (g.cols - 1) as u16),
        )
    } else if action == 'J' {
        g.erase_in_display(param_or(params, 0, 0))
    } else if action == 'K' {
        g.erase_in_line(param_or(params, 0, 0))
    } else if action == 'm' {
        g.sgr(params_i64(params))
    } else if action == 's' {
        GridView { saved_col: g.cursor_col, saved_row: g.cursor_row, ..g }
    } else if action == 'u' {
        g.with_cursor_col(min_u16(g.saved_col, (g.cols - 1) as u16)).with_cursor_row(
            min_u16(g.saved_row, (g.rows - 1) as u16),
        )
    } else {
        g
    }
}

fn first_param(params: &[u16], default: u16) -> (r: u16)
    ensures
        r == first_or(params@, default),
{
    if params.len() > 0 && params[0] > 0 {
        params[0]
    } else {
        default
    }
}

fn param(params: &[u16], i: usize, default: u16) -> (r: u16)
    ensures
        r == param_or(params@, i as int, default),
{
    if i < params.len() {
        params[i]
    } else {
        default
    }
}

/// Decode bytes as UTF-8 (`std::str::from_utf8`), owning the result.
#[verifier::external_body]
fn utf8_to_string(bytes: &[u8]) -> (s: Option<String>)
    ensures
        s is Some <==> valid_utf8(bytes@),
        s matches Some(t) ==> t@ == decode_utf8(bytes@),
{
    std::str::from_utf8(bytes).ok().map(|t| t.to_string())
}

/// The title set by an OSC string (`OSC 0` / `OSC 2`), if any.
pub open spec fn osc_title_of(params: Seq<Seq<u8>>) -> Option<Seq<char>> {
    if params.len() >= 2 && valid_utf8(params[0]) && (decode_utf8(params[0]) == seq!['0']
        || decode_utf8(params[0]) == seq!['2']) && valid_utf8(params[1]) {
        Some(decode_utf8(params[1]))
    } else {
        None
    }
}

/// Title requested by an OSC string: `OSC 0` and `OSC 2` set it.
pub fn osc_title(params: &[Vec<u8>]) -> (t: Option<String>)
    ensures
        match t {
            Some(s) => osc_title_of(params@.map_values(|p: Vec<u8>| p@)) == Some(s@),
            None => osc_title_of(params@.map_values(|p: Vec<u8>| p@)) is None,
        },
{
    let ghost ps = params@.map_values(|p: Vec<u8>| p@);
    if params.len() == 0 {
        return None;
    }
    let code = match utf8_to_string(params[0].as_slice()) {
        Some(c) => c,
        None => return None,
    };
    let code_chars = crate::text::chars_of(code.as_str());
    let is_title_code = code_chars.len() == 1 && (code_chars[0] == '0' || code_chars[0] == '2');
    proof {
        assert(ps[0] == params@[0]@);
        if code_chars@.len() == 1 {
            assert(code_chars@ == seq![code_chars@[0]]);
        }
        assert(is_title_code == (decode_utf8(ps[0]) == seq!['0'] || decode_utf8(ps[0]) == seq!['2']));
    }
    if is_title_code && params.len() >= 2 {
        proof {
            assert(ps[1] == params@[1]@);
        }
        return utf8_to_string(params[1].as_slice());
    }
    None
}

impl TerminalGrid {
    /// The reply a CSI sequence asks for, if any.
    fn csi_reply_for(&self, params: &[u16], intermediates: &[u8], action: char) -> (r: Option<Vec<u8>>)
        requires
            self.wf(),
        ensures
            match r {
                Some(v) => csi_reply(self@, params@, intermediates@, action) == Some(v@),
                None => csi_reply(self@, params@, intermediates@, action) is None,
            },
    {
        if action == 'c' && intermediates.len() == 0 {
            let v = vec![0x1bu8, 0x5b, 0x3f, 0x36, 0x32, 0x3b, 0x31, 0x3b, 0x32, 0x3b, 0x36, 0x3b, 0x32, 0x32, 0x63];
            proof {
                assert(v@ =~= primary_da_reply());
            }
            return Some(v);
        }
        if action == 'c' && intermediates.len() == 1 && intermediates[0] == 0x3e {
            let v = vec![0x1bu8, 0x5b, 0x3e, 0x30, 0x3b, 0x31, 0x30, 0x3b, 0x31, 0x63];
            proof {
                assert(intermediates@ =~= seq![0x3eu8]);
                assert(v@ =~= secondary_da_reply());
            }
            return Some(v);
        }
        proof {
            if action == 'c' && intermediates@ == seq![0x3eu8] {
                assert(intermediates@.len() == 1);
            }
        }
        if action == 'n' && intermediates.len() == 0 {
            let mode = param(params, 0, 0);
            if mode == 5 {
                let v = vec![0x1bu8, 0x5b, 0x30, 0x6e];
                proof {
                    assert(v@ =~= status_ok_reply());
                }
                return Some(v);
            }
            if mode == 6 {
                let snap_col = if self.cursor_col() <= self.cols() - 1 {
                    self.cursor_col()
                } else {
                    self.cols() - 1
                };
                let mut v: Vec<u8> = vec![0x1bu8, 0x5b];
                push_decimal(&mut v, self.cursor_row() as u32 + 1);
                v.push(0x3b);
                push_decimal(&mut v, snap_col as u32 + 1);
                v.push(0x52);
                proof {
                    assert(v@ =~= cursor_report(
                        self@.cursor_row as nat + 1,
                        min_u16(self@.cursor_col, (self@.cols - 1) as u16) as nat + 1,
                    ));
                }
                return Some(v);
            }
        }
        None
    }

    /// Apply a CSI sequence (first sub-parameter of each parameter), returning
    /// the bytes to write back to the program, if any.
    pub fn csi_dispatch(&mut self, params: &[u16], intermediates: &[u8], action: char) -> (reply: Option<Vec<u8>>)
        requires
            old(self).wf(),
        ensures
            final(self).wf(),
            final(self)@ == csi_effect(old(self)@, params@, intermediates@, action),
            match reply {
                Some(v) => csi_reply(old(self)@, params@, intermediates@, action) == Some(v@),
                None => csi_reply(old(self)@, params@, intermediates@, action) is None,
            },
    {
        let reply = self.csi_reply_for(params, intermediates, action);
        if reply.is_some() {
            return reply;
        }
        if action == 'A' {
            self.cursor_up(first_param(params, 1));
        } else if action == 'B' {
            self.cursor_down(first_param(params, 1));
        } else if action == 'C' {
            self.cursor_forward(first_param(params, 1));
        } else if action == 'D' {
            self.cursor_back(first_param(params, 1));
        } else if action == 'H' || action == 'f' {
            let row = param(params, 0, 1);
            let row = if row < 1 {
                1
            } else {
                row
            };
            let col = param(params, 1, 1);
            let col = if col < 1 {
                1
            } else {
                col
            };
            self.cursor_goto(row, col);
        } else if action == 'J' {
            self.erase_in_display(param(params, 0, 0));
        } else if action == 'K' {
            self.erase_in_line(param(params, 0, 0));
        } else if action == 'm' {
            let mut nums: Vec<i64> = Vec::new();
            let mut i: usize = 0;
            while i < params.len()
                invariant
                    i <= params@.len(),
                    nums@ == params_i64(params@).take(i as int),
                decreases params@.len() - i,
            {
                nums.push(params[i] as i64);
                proof {
                    assert(nums@ =~= params_i64(params@).take(i + 1));
                }
                i = i + 1;
            }
            proof {
                assert(nums@ =~= params_i64(params@));
            }
            self.sgr(nums.as_slice());
        } else if action == 's' {
            self.save_cursor();
        } else if action == 'u' {
            self.restore_cursor();
        }
        None
    }

    /// Apply a C0 control byte; returns whether it rang the bell.
    pub fn execute_control(&mut self, byte: u8) -> (bell: bool)
        requires
            old(self).wf(),
        ensures
            final(self).wf(),
            bell == (byte == 0x07),
            final(self)@ == (if byte == 0x0a {
                old(self)@.line_feed()
            } else if byte == 0x0d {
                old(self)@.with_cursor_col(0)
            } else if byte == 0x09 {
                old(self)@.put_char('\t')
            } else if byte == 0x08 {
                if old(self)@.cursor_col > 0 {
                    old(self)@.with_cursor_col((old(self)@.cursor_col - 1) as u16)
                } else {
                    old(self)@
                }
            } else {
                old(self)@
            }),
    {
        if byte == 0x0a {
            self.line_feed();
        } else if byte == 0x0d {
            self.carriage_return();
        } else if byte == 0x09 {
            self.put_char('\t');
        } else if byte == 0x08 {
            self.backspace();
        }
        byte == 0x07
    }
}

} // verus!
