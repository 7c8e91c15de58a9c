//! The interpreter core: registers, stack, program counter, index register,
//! timers, key matrix and screen buffer, driven one fetch-decode-execute
//! step per `run_cycle` call.
//!
//! The machine has two implicit states: running, and awaiting a key. The
//! key-wait instruction parks the machine in the awaiting state; the host's
//! loop keeps calling `run_cycle`, which stays put until the required key is
//! held (the host observes its own quit signal and simply stops calling).
//! Timers are decremented by the host through `tick_timers` on its own
//! logical 60 Hz clock, decoupled from how many instructions execute.

use vstd::prelude::*;

use crate::Chip8Error;
use crate::keys::Keys;
use crate::mem::Memory;
use crate::opcode;
use crate::opcode::OpCode;
use crate::opcode::op_wf;
use crate::rom::Rom;
use crate::screen_buffer::ScreenBuffer;

verus! {

/// Screen width in pixels.
pub const SCREEN_WIDTH: u16 = 64;

/// Screen height in pixels.
pub const SCREEN_HEIGHT: u16 = 32;

/// Where the font table is loaded.
pub const FONT_START_OFFSET: u16 = 0x050;

/// Where a program image is loaded, and where execution starts.
pub const ROM_START_OFFSET: u16 = 0x200;

/// The mathematical state of the machine: every contract about execution is
/// stated over this view.
#[verifier::ext_equal]
pub ghost struct MachineView {
    /// All 4096 memory bytes.
    pub mem: Seq<u8>,
    /// The 16 general-purpose registers V0..VF.
    pub regs: Seq<u8>,
    /// The 16 return-address slots.
    pub stack: Seq<u16>,
    /// The stack pointer: number of live return addresses.
    pub sp: u16,
    /// The program counter.
    pub pc: u16,
    /// The index register.
    pub i_reg: u16,
    /// The key matrix.
    pub keys: Keys,
    /// The screen pixels, flat, one cell per coordinate pair.
    pub screen: Seq<bool>,
    /// Whether a redraw is pending for the host.
    pub redraw: bool,
    /// The delay timer.
    pub delay: u8,
    /// The sound timer.
    pub sound: u8,
    /// `Some(k)`: execution is suspended until key `k` is held.
    pub awaiting: Option<u8>,
}

/// The state invariant, over the view: sizes are fixed, the stack pointer
/// stays in 0..=16, the index register is 12 bits, and a key being awaited
/// is a real key.
pub open spec fn view_wf(v: MachineView) -> bool {
    &&& v.mem.len() == 4096
    &&& v.regs.len() == 16
    &&& v.stack.len() == 16
    &&& v.sp <= 16
    &&& v.i_reg < 4096
    &&& v.screen.len() == SCREEN_WIDTH * SCREEN_HEIGHT
    &&& (v.awaiting matches Some(k) ==> k < 16)
}

/// The interpreter core. One instance runs one loaded program; run a new
/// program with a fresh machine.
pub struct Chip8 {
    memory: Memory,
    regs: Vec<u8>,
    stack: Vec<u16>,
    screen_buffer: ScreenBuffer,
    sp: u16,
    pc: u16,
    i_reg: u16,
    keys: Keys,
    redraw: bool,
    delay_timer: u8,
    sound_timer: u8,
    awaiting_key: Option<u8>,
}

impl View for Chip8 {
    type V = MachineView;

    closed spec fn view(&self) -> MachineView {
        MachineView {
            mem: self.memory@,
            regs: self.regs@,
            stack: self.stack@,
            sp: self.sp,
            pc: self.pc,
            i_reg: self.i_reg,
            keys: self.keys,
            screen: self.screen_buffer@,
            redraw: self.redraw,
            delay: self.delay_timer,
            sound: self.sound_timer,
            awaiting: self.awaiting_key,
        }
    }
}

/// The 80-byte font table: 16 glyphs of 5 rows each, glyph `g` at offset
/// `5 * g`.
pub open spec fn font_seq() -> Seq<u8> {
    seq![
        0xF0u8, 0x90, 0x90, 0x90, 0xF0,
        0x20, 0x60, 0x20, 0x20, 0x70,
        0xF0, 0x10, 0xF0, 0x80, 0xF0,
        0xF0, 0x10, 0xF0, 0x10, 0xF0,
        0x90, 0x90, 0xF0, 0x10, 0x10,
        0xF0, 0x80, 0xF0, 0x10, 0xF0,
        0xF0, 0x80, 0xF0, 0x90, 0xF0,
        0xF0, 0x10, 0x20, 0x40, 0x40,
        0xF0, 0x90, 0xF0, 0x90, 0xF0,
        0xF0, 0x90, 0xF0, 0x10, 0xF0,
        0xF0, 0x90, 0xF0, 0x90, 0x90,
        0xE0, 0x90, 0xE0, 0x90, 0xE0,
        0xF0, 0x80, 0x80, 0x80, 0xF0,
        0xE0, 0x90, 0x90, 0x90, 0xE0,
        0xF0, 0x80, 0xF0, 0x80, 0xF0,
        0xF0, 0x80, 0xF0, 0x80, 0x80,
    ]
}

/// Build the font table bytes.
fn font_data() -> (r: Vec<u8>)
    ensures
        r@ == font_seq(),
{
    let r: Vec<u8> = vec![
        0xF0u8, 0x90, 0x90, 0x90, 0xF0,
        0x20, 0x60, 0x20, 0x20, 0x70,
        0xF0, 0x10, 0xF0, 0x80, 0xF0,
        0xF0, 0x10, 0xF0, 0x10, 0xF0,
        0x90, 0x90, 0xF0, 0x10, 0x10,
        0xF0, 0x80, 0xF0, 0x10, 0xF0,
        0xF0, 0x80, 0xF0, 0x90, 0xF0,
        0xF0, 0x10, 0x20, 0x40, 0x40,
        0xF0, 0x90, 0xF0, 0x90, 0xF0,
        0xF0, 0x90, 0xF0, 0x10, 0xF0,
        0xF0, 0x90, 0xF0, 0x90, 0x90,
        0xE0, 0x90, 0xE0, 0x90, 0xE0,
        0xF0, 0x80, 0x80, 0x80, 0xF0,
        0xE0, 0x90, 0x90, 0x90, 0xE0,
        0xF0, 0x80, 0xF0, 0x80, 0xF0,
        0xF0, 0x80, 0xF0, 0x80, 0x80,
    ];
    proof {
        assert(r@ =~= font_seq());
    }
    r
}

/// The 16-bit instruction word fetched at `pc`: high byte first.
pub open spec fn fetch_word(mem: Seq<u8>, pc: int) -> u16 {
    (mem[pc] * 256 + mem[pc + 1]) as u16
}

/// The state with the program counter moved past one more instruction:
/// what a satisfied skip condition does.
pub open spec fn skip2(pre: MachineView) -> MachineView {
    MachineView { pc: ((pre.pc + 2) % 0x10000) as u16, ..pre }
}

/// Whether bit `b` (most significant bit first) of a sprite row is set.
pub open spec fn row_bit(row: u8, b: u8) -> bool {
    row & (0x80u8 >> b) != 0
}

/// Flat index of screen pixel (x, y).
pub open spec fn px_idx(x: int, y: int) -> int {
    x * (SCREEN_HEIGHT as int) + y
}

/// The screen with pixel (x, y) toggled.
pub open spec fn toggle_px(screen: Seq<bool>, x: int, y: int) -> Seq<bool> {
    screen.update(px_idx(x, y), !screen[px_idx(x, y)])
}

/// Sprite columns wrap around the right screen edge, per axis.
pub open spec fn wrap_x(sx: u8, b: u8) -> int {
    (sx + b) % (SCREEN_WIDTH as int)
}

/// Sprite rows wrap around the bottom screen edge, per axis.
pub open spec fn wrap_y(sy: u8, k: int) -> int {
    (sy + k) % (SCREEN_HEIGHT as int)
}

/// Screen and collision bit after XOR-plotting the first `j` bits of sprite
/// row `row` onto screen row `y`, starting at column `sx`: a set sprite bit
/// toggles its pixel, and a collision is an on-pixel turned off.
pub open spec fn draw_row_upto(screen: Seq<bool>, row: u8, sx: u8, y: int, j: int) -> (Seq<bool>, bool)
    decreases j,
{
    if j <= 0 {
        (screen, false)
    } else {
        let prev = draw_row_upto(screen, row, sx, y, j - 1);
        if row_bit(row, (j - 1) as u8) {
            let x = wrap_x(sx, (j - 1) as u8);
            (toggle_px(prev.0, x, y), prev.1 || prev.0[px_idx(x, y)])
        } else {
            prev
        }
    }
}

/// Screen and collision bit after drawing the first `k` rows of the sprite
/// whose rows sit in memory at `i`, with origin (sx, sy).
pub open spec fn draw_upto(screen: Seq<bool>, mem: Seq<u8>, i: int, sx: u8, sy: u8, k: int) -> (Seq<bool>, bool)
    decreases k,
{
    if k <= 0 {
        (screen, false)
    } else {
        let prev = draw_upto(screen, mem, i, sx, sy, k - 1);
        let r = draw_row_upto(prev.0, mem[i + k - 1], sx, wrap_y(sy, k - 1), 8);
        (r.0, prev.1 || r.1)
    }
}

/// Whether executing `op` from `pre` succeeds: a return needs a live stack
/// entry, a call a free one, and the memory-indexed instructions need every
/// address they touch inside memory. None of this reads the program
/// counter, so it holds before and after the fetch advance alike.
pub open spec fn step_ok(pre: MachineView, op: OpCode) -> bool {
    match op {
        OpCode::RET => pre.sp > 0,
        OpCode::CALL { addr } => pre.sp < 16,
        OpCode::DRAW { s, t, n } => n == 0 || pre.i_reg + n <= 4096,
        OpCode::BCD { s } => pre.i_reg + 2 < 4096,
        OpCode::STOR { s } => pre.i_reg + s < 4096,
        OpCode::READ { s } => pre.i_reg + s < 4096,
        _ => true,
    }
}

/// The fault reported when `step_ok` fails: the offending stack move, or
/// the highest memory address the instruction would have touched.
pub open spec fn step_err(pre: MachineView, op: OpCode) -> Chip8Error {
    match op {
        OpCode::RET => Chip8Error::StackUnderflow,
        OpCode::CALL { addr } => Chip8Error::StackOverflow,
        OpCode::DRAW { s, t, n } => (Chip8Error::MemoryBoundsError { addr: (pre.i_reg + n - 1) as u16 }),
        OpCode::BCD { s } => (Chip8Error::MemoryBoundsError { addr: (pre.i_reg + 2) as u16 }),
        OpCode::STOR { s } => (Chip8Error::MemoryBoundsError { addr: (pre.i_reg + s) as u16 }),
        OpCode::READ { s } => (Chip8Error::MemoryBoundsError { addr: (pre.i_reg + s) as u16 }),
        _ => arbitrary(),
    }
}

/// What executing `op` does to the machine state, given that `step_ok`
/// holds of `pre`. `pre` is the state after the fetch advance, so skip
/// instructions move the program counter two further, and a call pushes the
/// already-advanced counter. `rnd` is the byte the random instruction drew;
/// every other instruction ignores it.
pub open spec fn step_view(pre: MachineView, op: OpCode, rnd: u8) -> MachineView {
    match op {
        OpCode::SYS { addr } => pre,
        OpCode::CLR => (MachineView {
            screen: Seq::new(pre.screen.len(), |i: int| false),
            redraw: true,
            ..pre
        }),
        OpCode::RET => (MachineView { sp: (pre.sp - 1) as u16, pc: pre.stack[pre.sp - 1], ..pre }),
        OpCode::JUMP { addr } => (MachineView { pc: addr, ..pre }),
        OpCode::CALL { addr } => (MachineView {
            stack: pre.stack.update(pre.sp as int, pre.pc),
            sp: (pre.sp + 1) as u16,
            pc: addr,
            ..pre
        }),
        OpCode::SKE { s, nn } => if pre.regs[s as int] == nn { skip2(pre) } else { pre },
        OpCode::SKNE { s, nn } => if pre.regs[s as int] != nn { skip2(pre) } else { pre },
        OpCode::SKRE { s, t } => if pre.regs[s as int] == pre.regs[t as int] { skip2(pre) } else { pre },
        OpCode::LOAD { s, nn } => (MachineView { regs: pre.regs.update(s as int, nn), ..pre }),
        OpCode::ADD { s, nn } => (MachineView {
            regs: pre.regs.update(s as int, ((pre.regs[s as int] + nn) % 256) as u8),
            ..pre
        }),
        OpCode::MOVE { s, t } => (MachineView {
            regs: pre.regs.update(s as int, pre.regs[t as int]),
            ..pre
        }),
        OpCode::OR { s, t } => (MachineView {
            regs: pre.regs.update(s as int, pre.regs[s as int] | pre.regs[t as int]),
            ..pre
        }),
        OpCode::AND { s, t } => (MachineView {
            regs: pre.regs.update(s as int, pre.regs[s as int] & pre.regs[t as int]),
            ..pre
        }),
        OpCode::XOR { s, t } => (MachineView {
            regs: pre.regs.update(s as int, pre.regs[s as int] ^ pre.regs[t as int]),
            ..pre
        }),
        OpCode::ADDR { s, t } => ({
            let sum = pre.regs[s as int] + pre.regs[t as int];
            let flagged = pre.regs.update(15, if sum > 255 { 1u8 } else { 0u8 });
            MachineView { regs: flagged.update(s as int, (sum % 256) as u8), ..pre }
        }),
        OpCode::SUB { s, t } => ({
            let a = pre.regs[s as int];
            let b = pre.regs[t as int];
            let flagged = pre.regs.update(15, if a >= b { 1u8 } else { 0u8 });
            MachineView { regs: flagged.update(s as int, ((a - b + 256) % 256) as u8), ..pre }
        }),
        OpCode::SHR { s } => ({
            let v = pre.regs[s as int];
            let flagged = pre.regs.update(15, (v % 2) as u8);
            MachineView { regs: flagged.update(s as int, (v / 2) as u8), ..pre }
        }),
        OpCode::SHL { s } => ({
            let v = pre.regs[s as int];
            let flagged = pre.regs.update(15, (v / 128) as u8);
            MachineView { regs: flagged.update(s as int, ((v * 2) % 256) as u8), ..pre }
        }),
        OpCode::SKRNE { s, t } => if pre.regs[s as int] != pre.regs[t as int] { skip2(pre) } else { pre },
        OpCode::LOADI { addr } => (MachineView { i_reg: (addr % 4096) as u16, ..pre }),
        OpCode::JUMPI { addr } => (MachineView {
            pc: (pre.regs[0] + (addr % 4096)) as u16,
            ..pre
        }),
        OpCode::RAND { t, nn } => (MachineView { regs: pre.regs.update(t as int, rnd), ..pre }),
        OpCode::DRAW { s, t, n } => ({
            let d = draw_upto(pre.screen, pre.mem, pre.i_reg as int, pre.regs[s as int], pre.regs[t as int], n as int);
            MachineView {
                screen: d.0,
                regs: pre.regs.update(15, if d.1 { 1u8 } else { 0u8 }),
                redraw: true,
                ..pre
            }
        }),
        OpCode::SKP { s } => if pre.keys.spec_get((pre.regs[s as int] % 16) as u8) { skip2(pre) } else { pre },
        OpCode::SKNP { s } => if !pre.keys.spec_get((pre.regs[s as int] % 16) as u8) { skip2(pre) } else { pre },
        OpCode::MOVED { t } => (MachineView { regs: pre.regs.update(t as int, pre.delay), ..pre }),
        OpCode::KEYD { t } => (MachineView { awaiting: Some((pre.regs[t as int] % 16) as u8), ..pre }),
        OpCode::LOADD { s } => (MachineView { delay: pre.regs[s as int], ..pre }),
        OpCode::LOADS { s } => (MachineView { sound: pre.regs[s as int], ..pre }),
        OpCode::ADDI { s } => (MachineView {
            i_reg: ((pre.i_reg + pre.regs[s as int]) % 4096) as u16,
            ..pre
        }),
        OpCode::LDSPR { s } => (MachineView {
            i_reg: (FONT_START_OFFSET + (pre.regs[s as int] % 16) * 5) as u16,
            ..pre
        }),
        OpCode::BCD { s } => ({
            let v = pre.regs[s as int];
            MachineView {
                mem: pre.mem
                    .update(pre.i_reg as int, (v / 100) as u8)
                    .update(pre.i_reg + 1, ((v / 10) % 10) as u8)
                    .update(pre.i_reg + 2, (v % 10) as u8),
                ..pre
            }
        }),
        OpCode::STOR { s } => (MachineView {
            mem: Seq::new(pre.mem.len(), |a: int| if pre.i_reg <= a <= pre.i_reg + s {
                pre.regs[a - pre.i_reg]
            } else {
                pre.mem[a]
            }),
            ..pre
        }),
        OpCode::READ { s } => (MachineView {
            regs: Seq::new(pre.regs.len(), |r: int| if r <= s {
                pre.mem[pre.i_reg + r]
            } else {
                pre.regs[r]
            }),
            ..pre
        }),
    }
}

/// Everything one `run_cycle` call does, relating the machine state before
/// (`pre`) and after (`post`) and the returned result.
///
/// While a key is awaited nothing happens except that the wait ends the
/// moment the key is held. Otherwise the machine fetches at `pre.pc` (both
/// bytes must lie in memory), decodes (a failure reports the word and the
/// fetch counter), advances the counter by two, and executes. A fetch,
/// decode, stack or memory fault leaves the machine exactly as it was.
pub open spec fn cycle_spec(pre: MachineView, post: MachineView, r: Result<(), Chip8Error>) -> bool {
    match pre.awaiting {
        Some(k) => r is Ok && post == (if pre.keys.spec_get(k) {
            MachineView { awaiting: None, ..pre }
        } else {
            pre
        }),
        None => if pre.pc >= 4095 {
            &&& r == Err::<(), Chip8Error>(Chip8Error::MemoryBoundsError {
                addr: if pre.pc >= 4096 { pre.pc } else { (pre.pc + 1) as u16 },
            })
            &&& post == pre
        } else {
            let word = fetch_word(pre.mem, pre.pc as int);
            match opcode::spec_decode(word) {
                None => r == Err::<(), Chip8Error>(Chip8Error::DecodeError { word, pc: pre.pc })
                    && post == pre,
                Some(op) => {
                    let pre2 = MachineView { pc: (pre.pc + 2) as u16, ..pre };
                    if !step_ok(pre2, op) {
                        r == Err::<(), Chip8Error>(step_err(pre2, op)) && post == pre
                    } else {
                        &&& r is Ok
                        &&& (op matches OpCode::RAND { t, nn }
                            ==> exists|b: u8| b <= nn && post == step_view(pre2, op, b))
                        &&& (!(op matches OpCode::RAND { .. }) ==> post == step_view(pre2, op, 0))
                    }
                },
            }
        },
    }
}

/// A call followed by a return resumes right after the call. `pre` is the
/// state with the program counter already advanced past the call
/// instruction, so `pre.pc` is the address of the instruction immediately
/// after it. Whatever the counter holds by the time the return executes
/// (`mid_pc`), the return restores it to `pre.pc`, pops the stack back to
/// its old depth, and leaves registers and memory as the call left them.
pub proof fn lemma_call_ret(pre: MachineView, addr: u16, mid_pc: u16)
    requires
        view_wf(pre),
        pre.sp < 16,
    ensures
        ({
            let after_call = step_view(pre, OpCode::CALL { addr }, 0);
            let at_ret = MachineView { pc: mid_pc, ..after_call };
            let after_ret = step_view(at_ret, OpCode::RET, 0);
            &&& after_call.pc == addr
            &&& after_call.sp == pre.sp + 1
            &&& step_ok(at_ret, OpCode::RET)
            &&& after_ret.pc == pre.pc
            &&& after_ret.sp == pre.sp
            &&& after_ret.regs == pre.regs
            &&& after_ret.mem == pre.mem
            &&& after_ret.screen == pre.screen
        }),
{
}

/// Whether one of the first `j` bits of sprite row `row` lands on pixel
/// (x, y), the row being plotted on screen row `ry` starting at column `sx`.
pub open spec fn row_covers(row: u8, sx: u8, ry: int, j: int, x: int, y: int) -> bool {
    exists|b: u8| b < j && row_bit(row, b) && x == wrap_x(sx, b) && y == ry
}

/// Whether some set bit of the first `n` sprite rows at memory offset `i`
/// lands on pixel (x, y).
pub open spec fn sprite_covers(mem: Seq<u8>, i: int, sx: u8, sy: u8, n: int, x: int, y: int) -> bool {
    exists|k: int, b: u8|
        0 <= k < n && b < 8 && row_bit(mem[i + k], b) && x == wrap_x(sx, b) && y == wrap_y(sy, k)
}

/// Two different bits of one sprite row land on different columns.
proof fn lemma_wrap_x_distinct(sx: u8, b1: u8, b2: u8)
    requires
        b1 < b2,
        b2 < 8,
    ensures
        wrap_x(sx, b1) != wrap_x(sx, b2),
{
    let a1 = sx + b1;
    let a2 = sx + b2;
    vstd::arithmetic::div_mod::lemma_fundamental_div_mod(a1, 64);
    vstd::arithmetic::div_mod::lemma_fundamental_div_mod(a2, 64);
    assert(a1 % 64 != a2 % 64) by (nonlinear_arith)
        requires
            1 <= a2 - a1 <= 7,
            a1 == 64 * (a1 / 64) + a1 % 64,
            a2 == 64 * (a2 / 64) + a2 % 64,
            0 <= a1 % 64 < 64,
            0 <= a2 % 64 < 64,
    ;
}

/// Two different rows of one sprite land on different screen rows, as long
/// as the sprite has at most 15 rows.
proof fn lemma_wrap_y_distinct(sy: u8, k1: int, k2: int)
    requires
        0 <= k1 < k2,
        k2 < 16,
    ensures
        wrap_y(sy, k1) != wrap_y(sy, k2),
{
    let a1 = sy + k1;
    let a2 = sy + k2;
    vstd::arithmetic::div_mod::lemma_fundamental_div_mod(a1, 32);
    vstd::arithmetic::div_mod::lemma_fundamental_div_mod(a2, 32);
    assert(a1 % 32 != a2 % 32) by (nonlinear_arith)
        requires
            1 <= a2 - a1 <= 15,
            a1 == 32 * (a1 / 32) + a1 % 32,
            a2 == 32 * (a2 / 32) + a2 % 32,
            0 <= a1 % 32 < 32,
            0 <= a2 % 32 < 32,
    ;
}

/// Distinct in-range pixels have distinct flat indices.
proof fn lemma_px_idx_inj(x1: int, y1: int, x2: int, y2: int)
    requires
        0 <= x1 < 64,
        0 <= y1 < 32,
        0 <= x2 < 64,
        0 <= y2 < 32,
        !(x1 == x2 && y1 == y2),
    ensures
        px_idx(x1, y1) != px_idx(x2, y2),
        0 <= px_idx(x1, y1) < 2048,
{
    assert(x1 * 32 + y1 != x2 * 32 + y2 && 0 <= x1 * 32 + y1 < 2048) by (nonlinear_arith)
        requires
            0 <= x1 < 64,
            0 <= y1 < 32,
            0 <= x2 < 64,
            0 <= y2 < 32,
            !(x1 == x2 && y1 == y2),
    ;
}

/// Every in-range pixel has an in-range flat index.
proof fn lemma_px_idx_range(x: int, y: int)
    requires
        0 <= x < 64,
        0 <= y < 32,
    ensures
        0 <= px_idx(x, y) < 2048,
{
    assert(0 <= x * 32 + y < 2048) by (nonlinear_arith)
        requires
            0 <= x < 64,
            0 <= y < 32,
    ;
}

/// Pointwise account of plotting one sprite row: each pixel of the plotted
/// screen row is toggled exactly when a set bit lands on it, no other pixel
/// moves, and a collision is reported exactly when a set bit lands on a
/// pixel that was on.
proof fn lemma_row_point(screen: Seq<bool>, row: u8, sx: u8, ry: int, j: int)
    requires
        screen.len() == 2048,
        0 <= ry < 32,
        0 <= j <= 8,
    ensures
        draw_row_upto(screen, row, sx, ry, j).0.len() == screen.len(),
        forall|x: int, y: int| 0 <= x < 64 && 0 <= y < 32
            ==> draw_row_upto(screen, row, sx, ry, j).0[#[trigger] px_idx(x, y)]
                == (screen[px_idx(x, y)] != row_covers(row, sx, ry, j, x, y)),
        draw_row_upto(screen, row, sx, ry, j).1 == exists|b: u8|
            b < j && row_bit(row, b) && screen[px_idx(wrap_x(sx, b), ry)],
    decreases j,
{
    if j > 0 {
        lemma_row_point(screen, row, sx, ry, j - 1);
        let prev = draw_row_upto(screen, row, sx, ry, j - 1);
        let cur = draw_row_upto(screen, row, sx, ry, j);
        let bj = (j - 1) as u8;
        if row_bit(row, bj) {
            let xj = wrap_x(sx, bj);
            assert(0 <= xj < 64);
            lemma_px_idx_range(xj, ry);
            // earlier bits land on other columns, so bit j-1's pixel still
            // holds its original value in `prev`
            assert forall|b: u8| b < j - 1 implies wrap_x(sx, b) != xj by {
                lemma_wrap_x_distinct(sx, b, bj);
            }
            assert(!row_covers(row, sx, ry, j - 1, xj, ry));
            assert(prev.0[px_idx(xj, ry)] == screen[px_idx(xj, ry)]);
            // the toggle changes exactly that pixel
            assert forall|x: int, y: int| 0 <= x < 64 && 0 <= y < 32 implies
                cur.0[#[trigger] px_idx(x, y)]
                    == (screen[px_idx(x, y)] != row_covers(row, sx, ry, j, x, y)) by {
                lemma_px_idx_range(x, y);
                if x == xj && y == ry {
                    assert(row_covers(row, sx, ry, j, x, y));
                } else {
                    lemma_px_idx_inj(x, y, xj, ry);
                    if row_covers(row, sx, ry, j, x, y) {
                        let b = choose|b: u8|
                            b < j && row_bit(row, b) && x == wrap_x(sx, b) && y == ry;
                        if b == bj {
                            assert(false);
                        }
                        assert(row_covers(row, sx, ry, j - 1, x, y));
                    }
                    if row_covers(row, sx, ry, j - 1, x, y) {
                        assert(row_covers(row, sx, ry, j, x, y));
                    }
                }
            }
            // collision: the new disjunct reads the original pixel value
            assert(cur.1 == (prev.1 || screen[px_idx(xj, ry)]));
            if cur.1 {
                if prev.1 {
                    let b = choose|b: u8|
                        b < j - 1 && row_bit(row, b) && screen[px_idx(wrap_x(sx, b), ry)];
                    assert(b < j && row_bit(row, b) && screen[px_idx(wrap_x(sx, b), ry)]);
                } else {
                    assert(bj < j && row_bit(row, bj) && screen[px_idx(wrap_x(sx, bj), ry)]);
                }
            }
            if exists|b: u8| b < j && row_bit(row, b) && screen[px_idx(wrap_x(sx, b), ry)] {
                let b = choose|b: u8| b < j && row_bit(row, b) && screen[px_idx(wrap_x(sx, b), ry)];
                if b < j - 1 {
                    assert(prev.1);
                } else {
                    assert(b == bj);
                    assert(screen[px_idx(xj, ry)]);
                }
                assert(cur.1);
            }
        } else {
            assert(cur == prev);
            assert forall|x: int, y: int| 0 <= x < 64 && 0 <= y < 32 implies
                cur.0[#[trigger] px_idx(x, y)]
                    == (screen[px_idx(x, y)] != row_covers(row, sx, ry, j, x, y)) by {
                if row_covers(row, sx, ry, j, x, y) {
                    let b = choose|b: u8|
                        b < j && row_bit(row, b) && x == wrap_x(sx, b) && y == ry;
                    assert(b != bj);
                    assert(row_covers(row, sx, ry, j - 1, x, y));
                }
                if row_covers(row, sx, ry, j - 1, x, y) {
                    assert(row_covers(row, sx, ry, j, x, y));
                }
            }
            assert(cur.1 == exists|b: u8|
                b < j && row_bit(row, b) && screen[px_idx(wrap_x(sx, b), ry)]) by {
                if exists|b: u8| b < j && row_bit(row, b) && screen[px_idx(wrap_x(sx, b), ry)] {
                    let b = choose|b: u8|
                        b < j && row_bit(row, b) && screen[px_idx(wrap_x(sx, b), ry)];
                    assert(b != bj);
                    assert(b < j - 1 && row_bit(row, b) && screen[px_idx(wrap_x(sx, b), ry)]);
                }
                if exists|b: u8| b < j - 1 && row_bit(row, b) && screen[px_idx(wrap_x(sx, b), ry)] {
                    let b = choose|b: u8|
                        b < j - 1 && row_bit(row, b) && screen[px_idx(wrap_x(sx, b), ry)];
                    assert(b < j && row_bit(row, b) && screen[px_idx(wrap_x(sx, b), ry)]);
                }
            }
        }
    }
}

/// Pointwise account of a whole sprite draw: each pixel is toggled exactly
/// when a set sprite bit lands on it, and the collision bit is set exactly
/// when a set sprite bit lands on a pixel that was on before the draw.
proof fn lemma_draw_point(screen: Seq<bool>, mem: Seq<u8>, i: int, sx: u8, sy: u8, k: int)
    requires
        screen.len() == 2048,
        0 <= k < 16,
        0 <= i,
        i + k <= mem.len(),
    ensures
        draw_upto(screen, mem, i, sx, sy, k).0.len() == screen.len(),
        forall|x: int, y: int| 0 <= x < 64 && 0 <= y < 32
            ==> draw_upto(screen, mem, i, sx, sy, k).0[#[trigger] px_idx(x, y)]
                == (screen[px_idx(x, y)] != sprite_covers(mem, i, sx, sy, k, x, y)),
        draw_upto(screen, mem, i, sx, sy, k).1 == exists|k2: int, b: u8|
            0 <= k2 < k && b < 8 && row_bit(mem[i + k2], b)
                && screen[px_idx(wrap_x(sx, b), wrap_y(sy, k2))],
    decreases k,
{
    if k > 0 {
        lemma_draw_point(screen, mem, i, sx, sy, k - 1);
        let prev = draw_upto(screen, mem, i, sx, sy, k - 1);
        let cur = draw_upto(screen, mem, i, sx, sy, k);
        let rowk = mem[i + k - 1];
        let yk = wrap_y(sy, (k - 1) as int);
        assert(0 <= yk < 32);
        lemma_row_point(prev.0, rowk, sx, yk, 8);
        // earlier rows land on other screen rows
        assert forall|k2: int| 0 <= k2 < k - 1 implies wrap_y(sy, k2) != yk by {
            lemma_wrap_y_distinct(sy, k2, k - 1);
        }
        // hence row k-1's pixels still hold their original values in `prev`
        assert forall|b: u8| b < 8 implies
            prev.0[#[trigger] px_idx(wrap_x(sx, b), yk)] == screen[px_idx(wrap_x(sx, b), yk)] by {
            assert(0 <= wrap_x(sx, b) < 64);
            if sprite_covers(mem, i, sx, sy, k - 1, wrap_x(sx, b), yk) {
                let (k2, b2): (int, u8) = choose|k2: int, b2: u8|
                    0 <= k2 < k - 1 && b2 < 8 && row_bit(mem[i + k2], b2)
                        && wrap_x(sx, b) == wrap_x(sx, b2) && yk == wrap_y(sy, k2);
                assert(false);
            }
        }
        // pointwise: the two cover sets are disjoint, so xor becomes or
        assert forall|x: int, y: int| 0 <= x < 64 && 0 <= y < 32 implies
            cur.0[#[trigger] px_idx(x, y)]
                == (screen[px_idx(x, y)] != sprite_covers(mem, i, sx, sy, k, x, y)) by {
            let covp = sprite_covers(mem, i, sx, sy, k - 1, x, y);
            let covr = row_covers(rowk, sx, yk, 8, x, y);
            assert(cur.0[px_idx(x, y)] == (prev.0[px_idx(x, y)] != covr));
            if covp && covr {
                let (k2, b2): (int, u8) = choose|k2: int, b2: u8|
                    0 <= k2 < k - 1 && b2 < 8 && row_bit(mem[i + k2], b2)
                        && x == wrap_x(sx, b2) && y == wrap_y(sy, k2);
                let b3 = choose|b3: u8| b3 < 8 && row_bit(rowk, b3) && x == wrap_x(sx, b3) && y == yk;
                assert(wrap_y(sy, k2) == yk);
                assert(false);
            }
            if sprite_covers(mem, i, sx, sy, k, x, y) {
                let (k2, b2): (int, u8) = choose|k2: int, b2: u8|
                    0 <= k2 < k && b2 < 8 && row_bit(mem[i + k2], b2)
                        && x == wrap_x(sx, b2) && y == wrap_y(sy, k2);
                if k2 == k - 1 {
                    assert(b2 < 8 && row_bit(rowk, b2) && x == wrap_x(sx, b2) && y == yk);
                    assert(covr);
                } else {
                    assert(sprite_covers(mem, i, sx, sy, k - 1, x, y));
                }
            }
            if covp {
                let (k2, b2): (int, u8) = choose|k2: int, b2: u8|
                    0 <= k2 < k - 1 && b2 < 8 && row_bit(mem[i + k2], b2)
                        && x == wrap_x(sx, b2) && y == wrap_y(sy, k2);
                assert(sprite_covers(mem, i, sx, sy, k, x, y));
            }
            if covr {
                let b3 = choose|b3: u8| b3 < 8 && row_bit(rowk, b3) && x == wrap_x(sx, b3) && y == yk;
                assert(0 <= k - 1 < k && b3 < 8 && row_bit(mem[i + (k - 1)], b3)
                    && x == wrap_x(sx, b3) && y == wrap_y(sy, (k - 1) as int));
                assert(sprite_covers(mem, i, sx, sy, k, x, y));
            }
        }
        // collision: row k-1's contribution reads original pixel values
        let rowcol = draw_row_upto(prev.0, rowk, sx, yk, 8).1;
        assert(cur.1 == (prev.1 || rowcol));
        if cur.1 {
            if prev.1 {
                let (k2, b2): (int, u8) = choose|k2: int, b2: u8|
                    0 <= k2 < k - 1 && b2 < 8 && row_bit(mem[i + k2], b2)
                        && screen[px_idx(wrap_x(sx, b2), wrap_y(sy, k2))];
                assert(0 <= k2 < k && b2 < 8 && row_bit(mem[i + k2], b2)
                    && screen[px_idx(wrap_x(sx, b2), wrap_y(sy, k2))]);
            } else {
                let b3 = choose|b3: u8|
                    b3 < 8 && row_bit(rowk, b3) && prev.0[px_idx(wrap_x(sx, b3), yk)];
                assert(screen[px_idx(wrap_x(sx, b3), yk)]);
                assert(0 <= k - 1 < k && b3 < 8 && row_bit(mem[i + (k - 1)], b3)
                    && screen[px_idx(wrap_x(sx, b3), wrap_y(sy, (k - 1) as int))]);
            }
            assert(exists|k2: int, b: u8|
                0 <= k2 < k && b < 8 && row_bit(mem[i + k2], b)
                    && screen[px_idx(wrap_x(sx, b), wrap_y(sy, k2))]);
        }
        if exists|k2: int, b: u8|
            0 <= k2 < k && b < 8 && row_bit(mem[i + k2], b)
                && screen[px_idx(wrap_x(sx, b), wrap_y(sy, k2))] {
            let (k2, b2): (int, u8) = choose|k2: int, b2: u8|
                0 <= k2 < k && b2 < 8 && row_bit(mem[i + k2], b2)
                    && screen[px_idx(wrap_x(sx, b2), wrap_y(sy, k2))];
            if k2 < k - 1 {
                assert(prev.1);
            } else {
                assert(k2 == k - 1);
                assert(prev.0[px_idx(wrap_x(sx, b2), yk)] == screen[px_idx(wrap_x(sx, b2), yk)]);
                assert(b2 < 8 && row_bit(rowk, b2) && prev.0[px_idx(wrap_x(sx, b2), yk)]);
                assert(rowcol);
            }
            assert(cur.1);
        }
    }
}

/// Drawing the same sprite at the same location twice restores the screen
/// exactly, and the second draw reports a collision precisely when some set
/// sprite bit lands on a pixel that was off at the start (the first draw
/// turned it on, the second turned it off).
pub proof fn lemma_draw_twice(screen: Seq<bool>, mem: Seq<u8>, i: int, sx: u8, sy: u8, n: int)
    requires
        screen.len() == 2048,
        0 <= n < 16,
        0 <= i,
        i + n <= mem.len(),
    ensures
        ({
            let first = draw_upto(screen, mem, i, sx, sy, n);
            let second = draw_upto(first.0, mem, i, sx, sy, n);
            &&& second.0 == screen
            &&& second.1 == exists|k: int, b: u8|
                0 <= k < n && b < 8 && row_bit(mem[i + k], b)
                    && !screen[px_idx(wrap_x(sx, b), wrap_y(sy, k))]
        }),
{
    let first = draw_upto(screen, mem, i, sx, sy, n);
    let second = draw_upto(first.0, mem, i, sx, sy, n);
    lemma_draw_point(screen, mem, i, sx, sy, n);
    lemma_draw_point(first.0, mem, i, sx, sy, n);
    assert forall|idx: int| 0 <= idx < 2048 implies second.0[idx] == screen[idx] by {
        let x = idx / 32;
        let y = idx % 32;
        assert(0 <= x < 64 && 0 <= y < 32 && px_idx(x, y) == idx) by (nonlinear_arith)
            requires
                0 <= idx < 2048,
                x == idx / 32,
                y == idx % 32,
        ;
        assert(sprite_covers(mem, i, sx, sy, n, x, y)
            == sprite_covers(mem, i, sx, sy, n, x, y));
        assert(second.0[px_idx(x, y)] == (first.0[px_idx(x, y)] != sprite_covers(mem, i, sx, sy, n, x, y)));
        assert(first.0[px_idx(x, y)] == (screen[px_idx(x, y)] != sprite_covers(mem, i, sx, sy, n, x, y)));
    }
    assert(second.0 =~= screen);
    // the second draw's collision bit, over the screen the first draw left
    if second.1 {
        let (k, b): (int, u8) = choose|k: int, b: u8|
            0 <= k < n && b < 8 && row_bit(mem[i + k], b)
                && first.0[px_idx(wrap_x(sx, b), wrap_y(sy, k))];
        assert(0 <= wrap_x(sx, b) < 64 && 0 <= wrap_y(sy, k) < 32);
        assert(sprite_covers(mem, i, sx, sy, n, wrap_x(sx, b), wrap_y(sy, k)));
        assert(first.0[px_idx(wrap_x(sx, b), wrap_y(sy, k))]
            == !screen[px_idx(wrap_x(sx, b), wrap_y(sy, k))]);
        assert(0 <= k < n && b < 8 && row_bit(mem[i + k], b)
            && !screen[px_idx(wrap_x(sx, b), wrap_y(sy, k))]);
    }
    if exists|k: int, b: u8|
        0 <= k < n && b < 8 && row_bit(mem[i + k], b)
            && !screen[px_idx(wrap_x(sx, b), wrap_y(sy, k))] {
        let (k, b): (int, u8) = choose|k: int, b: u8|
            0 <= k < n && b < 8 && row_bit(mem[i + k], b)
                && !screen[px_idx(wrap_x(sx, b), wrap_y(sy, k))];
        assert(0 <= wrap_x(sx, b) < 64 && 0 <= wrap_y(sy, k) < 32);
        assert(sprite_covers(mem, i, sx, sy, n, wrap_x(sx, b), wrap_y(sy, k)));
        assert(first.0[px_idx(wrap_x(sx, b), wrap_y(sy, k))]);
        assert(second.1);
    }
}

impl Chip8 {
    /// The state invariant, as a predicate on the machine. It also ties the
    /// screen buffer's dimensions to the fixed 64 x 32 grid.
    pub closed spec fn wf(&self) -> bool {
        &&& view_wf(self@)
        &&& self.memory.wf()
        &&& self.screen_buffer.wf()
        &&& self.screen_buffer.spec_width() == SCREEN_WIDTH
        &&& self.screen_buffer.spec_height() == SCREEN_HEIGHT
    }

    /// A well-formed machine's view satisfies the view invariant.
    pub proof fn lemma_wf_view(&self)
        requires
            self.wf(),
        ensures
            view_wf(self@),
    {
    }

    /// A fresh machine: memory, registers, stack, timers and screen all
    /// zeroed, no key held, nothing awaited.
    pub fn new() -> (r: Self)
        ensures
            r.wf(),
            forall|a: int| 0 <= a < 4096 ==> r@.mem[a] == 0u8,
            forall|i: int| 0 <= i < 16 ==> r@.regs[i] == 0u8,
            forall|i: int| 0 <= i < 16 ==> r@.stack[i] == 0u16,
            r@.sp == 0,
            r@.pc == 0,
            r@.i_reg == 0,
            forall|k: u8| k < 16 ==> !r@.keys.spec_get(k),
            forall|i: int| 0 <= i < r@.screen.len() ==> !r@.screen[i],
            !r@.redraw,
            r@.delay == 0,
            r@.sound == 0,
            r@.awaiting is None,
    {
        let mut regs: Vec<u8> = Vec::new();
        let mut stack: Vec<u16> = Vec::new();
        let mut i: usize = 0;
        while i < 16
            invariant
                i <= 16,
                regs@.len() == i,
                stack@.len() == i,
                forall|j: int| 0 <= j < i ==> regs@[j] == 0u8,
                forall|j: int| 0 <= j < i ==> stack@[j] == 0u16,
            decreases 16 - i,
        {
            regs.push(0u8);
            stack.push(0u16);
            i += 1;
        }
        Chip8 {
            memory: Memory::new(),
            regs,
            stack,
            screen_buffer: ScreenBuffer::new(SCREEN_WIDTH, SCREEN_HEIGHT),
            sp: 0,
            pc: 0,
            i_reg: 0,
            keys: Keys::new(),
            redraw: false,
            delay_timer: 0,
            sound_timer: 0,
            awaiting_key: None,
        }
    }

    /// Point the program counter at the program start and load the font
    /// table at its reserved offset. Everything else is untouched.
    pub fn init(&mut self)
        requires
            old(self).wf(),
        ensures
            final(self).wf(),
            final(self)@.pc == ROM_START_OFFSET,
            forall|a: int| 0 <= a < 4096 ==> final(self)@.mem[a] == (
                if FONT_START_OFFSET <= a < FONT_START_OFFSET + 80 {
                    font_seq()[a - FONT_START_OFFSET]
                } else {
                    old(self)@.mem[a]
                }),
            final(self)@ == (MachineView {
                pc: final(self)@.pc,
                mem: final(self)@.mem,
                ..old(self)@
            }),
    {
        self.pc = ROM_START_OFFSET;
        let font = font_data();
        let r = self.memory.load_data(&font, FONT_START_OFFSET);
        proof {
            assert(r is Ok);
        }
    }

    /// Copy a program image into memory at the program start offset.
    /// Rejected with `LoadError` when the image would run past the end of
    /// memory; the machine is then unchanged.
    pub fn load_rom(&mut self, rom: Rom) -> (r: Result<(), Chip8Error>)
        requires
            old(self).wf(),
        ensures
            final(self).wf(),
            r is Ok <==> ROM_START_OFFSET + rom@.len() <= 4096,
            r is Err ==> r == Err::<(), Chip8Error>(Chip8Error::LoadError)
                && final(self)@ == old(self)@,
            r is Ok ==> {
                &&& forall|a: int| 0 <= a < 4096 ==> final(self)@.mem[a] == (
                    if ROM_START_OFFSET <= a < ROM_START_OFFSET + rom@.len() {
                        rom@[a - ROM_START_OFFSET]
                    } else {
                        old(self)@.mem[a]
                    })
                &&& final(self)@ == (MachineView { mem: final(self)@.mem, ..old(self)@ })
            },
    {
        let data = rom.into_bytes();
        self.memory.load_data(&data, ROM_START_OFFSET)
    }

    /// One logical 60 Hz tick: each timer counts down toward zero and never
    /// wraps below it.
    pub fn tick_timers(&mut self)
        requires
            old(self).wf(),
        ensures
            final(self).wf(),
            final(self)@.delay == (if old(self)@.delay > 0 { (old(self)@.delay - 1) as u8 } else { 0u8 }),
            final(self)@.sound == (if old(self)@.sound > 0 { (old(self)@.sound - 1) as u8 } else { 0u8 }),
            final(self)@ == (MachineView {
                delay: final(self)@.delay,
                sound: final(self)@.sound,
                ..old(self)@
            }),
    {
        if self.delay_timer > 0 {
            self.delay_timer = self.delay_timer - 1;
        }
        if self.sound_timer > 0 {
            self.sound_timer = self.sound_timer - 1;
        }
    }

    /// The host reports key `key` as held.
    pub fn set_key(&mut self, key: u8)
        requires
            old(self).wf(),
            key < 16,
        ensures
            final(self).wf(),
            final(self)@.keys.spec_get(key),
            forall|k: u8| k < 16 && k != key
                ==> final(self)@.keys.spec_get(k) == old(self)@.keys.spec_get(k),
            final(self)@ == (MachineView { keys: final(self)@.keys, ..old(self)@ }),
    {
        self.keys.set(key);
    }

    /// The host reports key `key` as released.
    pub fn unset_key(&mut self, key: u8)
        requires
            old(self).wf(),
            key < 16,
        ensures
            final(self).wf(),
            !final(self)@.keys.spec_get(key),
            forall|k: u8| k < 16 && k != key
                ==> final(self)@.keys.spec_get(k) == old(self)@.keys.spec_get(k),
            final(self)@ == (MachineView { keys: final(self)@.keys, ..old(self)@ }),
    {
        self.keys.unset(key);
    }

    /// Whether the screen changed since the host last acknowledged a redraw.
    pub fn redraw_pending(&self) -> (r: bool)
        ensures
            r == self@.redraw,
    {
        self.redraw
    }

    /// The host acknowledges the pending redraw after rendering the buffer.
    pub fn clear_redraw(&mut self)
        requires
            old(self).wf(),
        ensures
            final(self).wf(),
            final(self)@ == (MachineView { redraw: false, ..old(self)@ }),
    {
        self.redraw = false;
    }

    /// The current screen contents, for the host to render.
    pub fn screen_buffer(&self) -> (r: &ScreenBuffer)
        requires
            self.wf(),
        ensures
            r@ == self@.screen,
            r.wf(),
            r.spec_width() == SCREEN_WIDTH,
            r.spec_height() == SCREEN_HEIGHT,
    {
        &self.screen_buffer
    }

    /// Whether the machine is suspended waiting for a key.
    pub fn is_awaiting_key(&self) -> (r: bool)
        ensures
            r == (self@.awaiting is Some),
    {
        self.awaiting_key.is_some()
    }

    /// Read register `r` (V0..VF).
    pub fn reg(&self, r: u8) -> (v: u8)
        requires
            self.wf(),
            r < 16,
        ensures
            v == self@.regs[r as int],
    {
        self.regs[r as usize]
    }

    /// The current program counter.
    pub fn pc(&self) -> (r: u16)
        ensures
            r == self@.pc,
    {
        self.pc
    }

    /// The current index register.
    pub fn index_reg(&self) -> (r: u16)
        ensures
            r == self@.i_reg,
    {
        self.i_reg
    }

    /// Read one memory byte; the address must be in bounds.
    pub fn mem_byte(&self, addr: u16) -> (r: u8)
        requires
            self.wf(),
            addr < 4096,
        ensures
            r == self@.mem[addr as int],
    {
        self.memory.get(addr)
    }

    /// The current delay timer value.
    pub fn delay_timer(&self) -> (r: u8)
        ensures
            r == self@.delay,
    {
        self.delay_timer
    }

    /// The current sound timer value.
    pub fn sound_timer(&self) -> (r: u8)
        ensures
            r == self@.sound,
    {
        self.sound_timer
    }

    /// Fetch the two instruction bytes at the program counter.
    fn fetch_opcode(&self) -> (r: u16)
        requires
            self.wf(),
            self@.pc + 1 < 4096,
        ensures
            r == fetch_word(self@.mem, self@.pc as int),
    {
        let h: u16 = self.memory.get(self.pc) as u16;
        let l: u16 = self.memory.get(self.pc + 1) as u16;
        proof {
            assert((h << 8) | l == h * 256 + l) by (bit_vector)
                requires
                    h < 256,
                    l < 256,
            ;
        }
        (h << 8) | l
    }

    /// Clear the screen and mark a redraw pending.
    fn clr(&mut self)
        requires
            old(self).wf(),
        ensures
            final(self).wf(),
            final(self)@ == step_view(old(self)@, OpCode::CLR, 0),
    {
        self.screen_buffer.clear();
        self.redraw = true;
        proof {
            assert(self.screen_buffer@ =~= Seq::new(old(self)@.screen.len(), |i: int| false));
            assert(self@ =~= step_view(old(self)@, OpCode::CLR, 0));
        }
    }

    /// Return from subroutine: pop the saved counter.
    fn ret(&mut self)
        requires
            old(self).wf(),
            old(self)@.sp > 0,
        ensures
            final(self).wf(),
            final(self)@ == step_view(old(self)@, OpCode::RET, 0),
    {
        self.sp = self.sp - 1;
        self.pc = self.stack[self.sp as usize];
        proof {
            assert(self@ =~= step_view(old(self)@, OpCode::RET, 0));
        }
    }

    /// Jump: overwrite the program counter.
    fn jump(&mut self, addr: u16)
        requires
            old(self).wf(),
        ensures
            final(self).wf(),
            final(self)@ == step_view(old(self)@, OpCode::JUMP { addr }, 0),
    {
        self.pc = addr;
        proof {
            assert(self@ =~= step_view(old(self)@, OpCode::JUMP { addr }, 0));
        }
    }

    /// Call subroutine: push the advanced counter, then jump.
    fn call(&mut self, addr: u16)
        requires
            old(self).wf(),
            old(self)@.sp < 16,
        ensures
            final(self).wf(),
            final(self)@ == step_view(old(self)@, OpCode::CALL { addr }, 0),
    {
        self.stack.set(self.sp as usize, self.pc);
        self.sp = self.sp + 1;
        self.pc = addr;
        proof {
            assert(self@ =~= step_view(old(self)@, OpCode::CALL { addr }, 0));
        }
    }

    /// Skip the next instruction if register s equals the immediate.
    fn ske(&mut self, s: u8, nn: u8)
        requires
            old(self).wf(),
            s < 16,
        ensures
            final(self).wf(),
            final(self)@ == step_view(old(self)@, OpCode::SKE { s, nn }, 0),
    {
        if self.regs[s as usize] == nn {
            self.pc = self.pc.wrapping_add(2);
        }
        proof {
            assert(self@ =~= step_view(old(self)@, OpCode::SKE { s, nn }, 0));
        }
    }

    /// Skip the next instruction if register s differs from the immediate.
    fn skne(&mut self, s: u8, nn: u8)
        requires
            old(self).wf(),
            s < 16,
        ensures
            final(self).wf(),
            final(self)@ == step_view(old(self)@, OpCode::SKNE { s, nn }, 0),
    {
        if self.regs[s as usize] != nn {
            self.pc = self.pc.wrapping_add(2);
        }
        proof {
            assert(self@ =~= step_view(old(self)@, OpCode::SKNE { s, nn }, 0));
        }
    }

    /// Skip the next instruction if registers s and t are equal.
    fn skre(&mut self, s: u8, t: u8)
        requires
            old(self).wf(),
            s < 16,
            t < 16,
        ensures
            final(self).wf(),
            final(self)@ == step_view(old(self)@, OpCode::SKRE { s, t }, 0),
    {
        if self.regs[s as usize] == self.regs[t as usize] {
            self.pc = self.pc.wrapping_add(2);
        }
        proof {
            assert(self@ =~= step_view(old(self)@, OpCode::SKRE { s, t }, 0));
        }
    }

    /// Skip the next instruction if registers s and t differ.
    fn skrne(&mut self, s: u8, t: u8)
        requires
            old(self).wf(),
            s < 16,
            t < 16,
        ensures
            final(self).wf(),
            final(self)@ == step_view(old(self)@, OpCode::SKRNE { s, t }, 0),
    {
        if self.regs[s as usize] != self.regs[t as usize] {
            self.pc = self.pc.wrapping_add(2);
        }
        proof {
            assert(self@ =~= step_view(old(self)@, OpCode::SKRNE { s, t }, 0));
        }
    }

    /// Load an immediate into register s.
    fn load(&mut self, s: u8, nn: u8)
        requires
            old(self).wf(),
            s < 16,
        ensures
            final(self).wf(),
            final(self)@ == step_view(old(self)@, OpCode::LOAD { s, nn }, 0),
    {
        self.regs.set(s as usize, nn);
        proof {
            assert(self@ =~= step_view(old(self)@, OpCode::LOAD { s, nn }, 0));
        }
    }

    /// Add an immediate to register s, wrapping; the flag is untouched.
    fn add(&mut self, s: u8, nn: u8)
        requires
            old(self).wf(),
            s < 16,
        ensures
            final(self).wf(),
            final(self)@ == step_view(old(self)@, OpCode::ADD { s, nn }, 0),
    {
        let v = self.regs[s as usize];
        self.regs.set(s as usize, v.wrapping_add(nn));
        proof {
            assert(self@ =~= step_view(old(self)@, OpCode::ADD { s, nn }, 0));
        }
    }

    /// Copy register t into register s.
    fn move_reg(&mut self, s: u8, t: u8)
        requires
            old(self).wf(),
            s < 16,
            t < 16,
        ensures
            final(self).wf(),
            final(self)@ == step_view(old(self)@, OpCode::MOVE { s, t }, 0),
    {
        let v = self.regs[t as usize];
        self.regs.set(s as usize, v);
        proof {
            assert(self@ =~= step_view(old(self)@, OpCode::MOVE { s, t }, 0));
        }
    }

    /// Bitwise OR of registers s and t, stored in s.
    fn or(&mut self, s: u8, t: u8)
        requires
            old(self).wf(),
            s < 16,
            t < 16,
        ensures
            final(self).wf(),
            final(self)@ == step_view(old(self)@, OpCode::OR { s, t }, 0),
    {
        let v = self.regs[s as usize] | self.regs[t as usize];
        self.regs.set(s as usize, v);
        proof {
            assert(self@ =~= step_view(old(self)@, OpCode::OR { s, t }, 0));
        }
    }

    /// Bitwise AND of registers s and t, stored in s.
    fn and(&mut self, s: u8, t: u8)
        requires
            old(self).wf(),
            s < 16,
            t < 16,
        ensures
            final(self).wf(),
            final(self)@ == step_view(old(self)@, OpCode::AND { s, t }, 0),
    {
        let v = self.regs[s as usize] & self.regs[t as usize];
        self.regs.set(s as usize, v);
        proof {
            assert(self@ =~= step_view(old(self)@, OpCode::AND { s, t }, 0));
        }
    }

    /// Bitwise XOR of registers s and t, stored in s.
    fn xor(&mut self, s: u8, t: u8)
        requires
            old(self).wf(),
            s < 16,
            t < 16,
        ensures
            final(self).wf(),
            final(self)@ == step_view(old(self)@, OpCode::XOR { s, t }, 0),
    {
        let v = self.regs[s as usize] ^ self.regs[t as usize];
        self.regs.set(s as usize, v);
        proof {
            assert(self@ =~= step_view(old(self)@, OpCode::XOR { s, t }, 0));
        }
    }

    /// Add register t to register s: the result wraps, and the flag
    /// register takes 1 exactly when the unsigned sum exceeds 255.
    fn addr(&mut self, s: u8, t: u8)
        requires
            old(self).wf(),
            s < 16,
            t < 16,
        ensures
            final(self).wf(),
            final(self)@ == step_view(old(self)@, OpCode::ADDR { s, t }, 0),
    {
        let a = self.regs[s as usize];
        let b = self.regs[t as usize];
        let sum: u16 = a as u16 + b as u16;
        self.regs.set(15, if sum > 255 { 1 } else { 0 });
        self.regs.set(s as usize, (sum % 256) as u8);
        proof {
            assert(self@ =~= step_view(old(self)@, OpCode::ADDR { s, t }, 0));
        }
    }

    /// Subtract register t from register s: the result wraps on borrow, and
    /// the flag register takes 1 exactly when no borrow occurred.
    fn sub(&mut self, s: u8, t: u8)
        requires
            old(self).wf(),
            s < 16,
            t < 16,
        ensures
            final(self).wf(),
            final(self)@ == step_view(old(self)@, OpCode::SUB { s, t }, 0),
    {
        let a = self.regs[s as usize];
        let b = self.regs[t as usize];
        self.regs.set(15, if a >= b { 1 } else { 0 });
        self.regs.set(s as usize, a.wrapping_sub(b));
        proof {
            assert(self@ =~= step_view(old(self)@, OpCode::SUB { s, t }, 0));
        }
    }

    /// Shift register s right one bit; the flag takes the pre-shift bit 0.
    fn shr(&mut self, s: u8)
        requires
            old(self).wf(),
            s < 16,
        ensures
            final(self).wf(),
            final(self)@ == step_view(old(self)@, OpCode::SHR { s }, 0),
    {
        let v = self.regs[s as usize];
        proof {
            assert(v & 1 == v % 2) by (bit_vector);
            assert(v >> 1 == v / 2) by (bit_vector);
        }
        self.regs.set(15, v & 1);
        self.regs.set(s as usize, v >> 1);
        proof {
            assert(self@ =~= step_view(old(self)@, OpCode::SHR { s }, 0));
        }
    }

    /// Shift register s left one bit; the flag takes the pre-shift bit 7.
    fn shl(&mut self, s: u8)
        requires
            old(self).wf(),
            s < 16,
        ensures
            final(self).wf(),
            final(self)@ == step_view(old(self)@, OpCode::SHL { s }, 0),
    {
        let v = self.regs[s as usize];
        proof {
            assert(v >> 7 == v / 128) by (bit_vector);
        }
        self.regs.set(15, v >> 7);
        self.regs.set(s as usize, ((v as u16 * 2) % 256) as u8);
        proof {
            assert(self@ =~= step_view(old(self)@, OpCode::SHL { s }, 0));
        }
    }

    /// Load the index register, masked to 12 bits.
    fn loadi(&mut self, addr: u16)
        requires
            old(self).wf(),
        ensures
            final(self).wf(),
            final(self)@ == step_view(old(self)@, OpCode::LOADI { addr }, 0),
    {
        self.i_reg = addr % 4096;
        proof {
            assert(self@ =~= step_view(old(self)@, OpCode::LOADI { addr }, 0));
        }
    }

    /// Jump to the address plus register 0.
    fn jumpi(&mut self, addr: u16)
        requires
            old(self).wf(),
            addr < 4096,
        ensures
            final(self).wf(),
            final(self)@ == step_view(old(self)@, OpCode::JUMPI { addr }, 0),
    {
        self.pc = self.regs[0] as u16 + addr;
        proof {
            assert(self@ =~= step_view(old(self)@, OpCode::JUMPI { addr }, 0));
        }
    }

    /// Draw a random byte in [0, nn] into register t.
    fn rand(&mut self, t: u8, nn: u8)
        requires
            old(self).wf(),
            t < 16,
        ensures
            final(self).wf(),
            exists|b: u8| b <= nn
                && final(self)@ == step_view(old(self)@, OpCode::RAND { t, nn }, b),
    {
        let b = crate::rng::random_byte_up_to(nn);
        self.regs.set(t as usize, b);
        proof {
            assert(self@ =~= step_view(old(self)@, OpCode::RAND { t, nn }, b));
        }
    }

    /// Skip the next instruction if the key named by register s's low
    /// nibble is held.
    fn skp(&mut self, s: u8)
        requires
            old(self).wf(),
            s < 16,
        ensures
            final(self).wf(),
            final(self)@ == step_view(old(self)@, OpCode::SKP { s }, 0),
    {
        let key = self.regs[s as usize] % 16;
        if self.keys.get(key) {
            self.pc = self.pc.wrapping_add(2);
        }
        proof {
            assert(self@ =~= step_view(old(self)@, OpCode::SKP { s }, 0));
        }
    }

    /// Skip the next instruction if the key named by register s's low
    /// nibble is not held.
    fn sknp(&mut self, s: u8)
        requires
            old(self).wf(),
            s < 16,
        ensures
            final(self).wf(),
            final(self)@ == step_view(old(self)@, OpCode::SKNP { s }, 0),
    {
        let key = self.regs[s as usize] % 16;
        if !self.keys.get(key) {
            self.pc = self.pc.wrapping_add(2);
        }
        proof {
            assert(self@ =~= step_view(old(self)@, OpCode::SKNP { s }, 0));
        }
    }

    /// Move the delay timer value into register t.
    fn moved(&mut self, t: u8)
        requires
            old(self).wf(),
            t < 16,
        ensures
            final(self).wf(),
            final(self)@ == step_view(old(self)@, OpCode::MOVED { t }, 0),
    {
        let v = self.delay_timer;
        self.regs.set(t as usize, v);
        proof {
            assert(self@ =~= step_view(old(self)@, OpCode::MOVED { t }, 0));
        }
    }

    /// Suspend execution until the key named by register t's low nibble is
    /// held.
    fn keyd(&mut self, t: u8)
        requires
            old(self).wf(),
            t < 16,
        ensures
            final(self).wf(),
            final(self)@ == step_view(old(self)@, OpCode::KEYD { t }, 0),
    {
        self.awaiting_key = Some(self.regs[t as usize] % 16);
        proof {
            assert(self@ =~= step_view(old(self)@, OpCode::KEYD { t }, 0));
        }
    }

    /// Load the delay timer from register s.
    fn loadd(&mut self, s: u8)
        requires
            old(self).wf(),
            s < 16,
        ensures
            final(self).wf(),
            final(self)@ == step_view(old(self)@, OpCode::LOADD { s }, 0),
    {
        self.delay_timer = self.regs[s as usize];
        proof {
            assert(self@ =~= step_view(old(self)@, OpCode::LOADD { s }, 0));
        }
    }

    /// Load the sound timer from register s.
    fn loads(&mut self, s: u8)
        requires
            old(self).wf(),
            s < 16,
        ensures
            final(self).wf(),
            final(self)@ == step_view(old(self)@, OpCode::LOADS { s }, 0),
    {
        self.sound_timer = self.regs[s as usize];
        proof {
            assert(self@ =~= step_view(old(self)@, OpCode::LOADS { s }, 0));
        }
    }

    /// Add register s to the index register, masked to 12 bits.
    fn addi(&mut self, s: u8)
        requires
            old(self).wf(),
            s < 16,
        ensures
            final(self).wf(),
            final(self)@ == step_view(old(self)@, OpCode::ADDI { s }, 0),
    {
        self.i_reg = (self.i_reg + self.regs[s as usize] as u16) % 4096;
        proof {
            assert(self@ =~= step_view(old(self)@, OpCode::ADDI { s }, 0));
        }
    }

    /// Point the index register at the font glyph for register s's low
    /// nibble.
    fn ldspr(&mut self, s: u8)
        requires
            old(self).wf(),
            s < 16,
        ensures
            final(self).wf(),
            final(self)@ == step_view(old(self)@, OpCode::LDSPR { s }, 0),
    {
        let glyph = (self.regs[s as usize] % 16) as u16;
        self.i_reg = FONT_START_OFFSET + glyph * 5;
        proof {
            assert(self@ =~= step_view(old(self)@, OpCode::LDSPR { s }, 0));
        }
    }

    /// Write the three decimal digits of register s at the index register.
    fn bcd(&mut self, s: u8)
        requires
            old(self).wf(),
            s < 16,
            old(self)@.i_reg + 2 < 4096,
        ensures
            final(self).wf(),
            final(self)@ == step_view(old(self)@, OpCode::BCD { s }, 0),
    {
        let v = self.regs[s as usize];
        self.memory.set(self.i_reg, v / 100);
        self.memory.set(self.i_reg + 1, (v / 10) % 10);
        self.memory.set(self.i_reg + 2, v % 10);
        proof {
            assert(self@ =~= step_view(old(self)@, OpCode::BCD { s }, 0));
        }
    }

    /// Store registers 0 through s to memory at the index register.
    fn stor(&mut self, s: u8)
        requires
            old(self).wf(),
            s < 16,
            old(self)@.i_reg + s < 4096,
        ensures
            final(self).wf(),
            final(self)@ == step_view(old(self)@, OpCode::STOR { s }, 0),
    {
        let mut r: u16 = 0;
        while r <= s as u16
            invariant
                self.wf(),
                r <= s + 1,
                s < 16,
                self@.i_reg + s < 4096,
                self@ == (MachineView { mem: self@.mem, ..old(self)@ }),
                forall|a: int| 0 <= a < 4096 ==> self@.mem[a] == (
                    if old(self)@.i_reg <= a < old(self)@.i_reg + r {
                        old(self)@.regs[a - old(self)@.i_reg]
                    } else {
                        old(self)@.mem[a]
                    }),
            decreases s + 1 - r,
        {
            let v = self.regs[r as usize];
            self.memory.set(self.i_reg + r, v);
            r = r + 1;
        }
        proof {
            assert(self@.mem =~= step_view(old(self)@, OpCode::STOR { s }, 0).mem);
            assert(self@ =~= step_view(old(self)@, OpCode::STOR { s }, 0));
        }
    }

    /// Load registers 0 through s from memory at the index register.
    fn read(&mut self, s: u8)
        requires
            old(self).wf(),
            s < 16,
            old(self)@.i_reg + s < 4096,
        ensures
            final(self).wf(),
            final(self)@ == step_view(old(self)@, OpCode::READ { s }, 0),
    {
        let mut r: u16 = 0;
        while r <= s as u16
            invariant
                self.wf(),
                r <= s + 1,
                s < 16,
                self@.i_reg + s < 4096,
                self@ == (MachineView { regs: self@.regs, ..old(self)@ }),
                forall|k: int| 0 <= k < 16 ==> self@.regs[k] == (
                    if 0 <= k < r {
                        old(self)@.mem[old(self)@.i_reg + k]
                    } else {
                        old(self)@.regs[k]
                    }),
            decreases s + 1 - r,
        {
            let v = self.memory.get(self.i_reg + r);
            self.regs.set(r as usize, v);
            r = r + 1;
        }
        proof {
            assert(self@.regs =~= step_view(old(self)@, OpCode::READ { s }, 0).regs);
            assert(self@ =~= step_view(old(self)@, OpCode::READ { s }, 0));
        }
    }

    /// Draw an n-row sprite from memory at the index register, with origin
    /// taken from registers s and t. Each set sprite bit toggles its pixel,
    /// wrapping per axis; the flag register takes 1 exactly when some
    /// plotted pixel was on and went off. Marks a redraw pending.
    fn draw(&mut self, s: u8, t: u8, n: u8)
        requires
            old(self).wf(),
            s < 16,
            t < 16,
            n < 16,
            n == 0 || old(self)@.i_reg + n <= 4096,
        ensures
            final(self).wf(),
            final(self)@ == step_view(old(self)@, OpCode::DRAW { s, t, n }, 0),
    {
        let sx = self.regs[s as usize];
        let sy = self.regs[t as usize];
        let mut collision = false;
        let mut k: u8 = 0;
        while k < n
            invariant
                self.wf(),
                k <= n,
                n < 16,
                self@.i_reg + n <= 4096 || n == 0,
                sx == old(self)@.regs[s as int],
                sy == old(self)@.regs[t as int],
                self@ == (MachineView { screen: self@.screen, ..old(self)@ }),
                self@.screen == draw_upto(old(self)@.screen, self@.mem, self@.i_reg as int, sx, sy, k as int).0,
                collision == draw_upto(old(self)@.screen, self@.mem, self@.i_reg as int, sx, sy, k as int).1,
            decreases n - k,
        {
            let row = self.memory.get(self.i_reg + k as u16);
            let y: u16 = (sy as u16 + k as u16) % SCREEN_HEIGHT;
            let ghost prev = draw_upto(old(self)@.screen, self@.mem, self@.i_reg as int, sx, sy, k as int);
            let mut b: u8 = 0;
            while b < 8
                invariant
                    self.wf(),
                    b <= 8,
                    k < n,
                    n < 16,
                    self@.i_reg + n <= 4096,
                    sx == old(self)@.regs[s as int],
                    sy == old(self)@.regs[t as int],
                    row == self@.mem[self@.i_reg + k],
                    y == wrap_y(sy, k as int),
                    prev == draw_upto(old(self)@.screen, self@.mem, self@.i_reg as int, sx, sy, k as int),
                    self@ == (MachineView { screen: self@.screen, ..old(self)@ }),
                    self@.screen == draw_row_upto(prev.0, row, sx, y as int, b as int).0,
                    collision == (prev.1 || draw_row_upto(prev.0, row, sx, y as int, b as int).1),
                decreases 8 - b,
            {
                if row & (0x80u8 >> b) != 0 {
                    let x: u16 = (sx as u16 + b as u16) % SCREEN_WIDTH;
                    let c = self.screen_buffer.xor(x, y);
                    if c {
                        collision = true;
                    }
                }
                b = b + 1;
            }
            k = k + 1;
        }
        self.regs.set(15, if collision { 1 } else { 0 });
        self.redraw = true;
        proof {
            assert(self@ =~= step_view(old(self)@, OpCode::DRAW { s, t, n }, 0));
        }
    }

    /// Report the fault, if any, that executing `op` from the current state
    /// would hit, without touching anything.
    fn check_op(&self, op: OpCode) -> (r: Result<(), Chip8Error>)
        requires
            self.wf(),
            op_wf(op),
        ensures
            r is Ok <==> step_ok(self@, op),
            !step_ok(self@, op) ==> r == Err::<(), Chip8Error>(step_err(self@, op)),
    {
        match op {
            OpCode::RET => if self.sp == 0 {
                Err(Chip8Error::StackUnderflow)
            } else {
                Ok(())
            },
            OpCode::CALL { addr } => if self.sp >= 16 {
                Err(Chip8Error::StackOverflow)
            } else {
                Ok(())
            },
            OpCode::DRAW { s, t, n } => if n > 0 && self.i_reg + n as u16 > 4096 {
                Err(Chip8Error::MemoryBoundsError { addr: self.i_reg + n as u16 - 1 })
            } else {
                Ok(())
            },
            OpCode::BCD { s } => if self.i_reg + 2 >= 4096 {
                Err(Chip8Error::MemoryBoundsError { addr: self.i_reg + 2 })
            } else {
                Ok(())
            },
            OpCode::STOR { s } => if self.i_reg + s as u16 >= 4096 {
                Err(Chip8Error::MemoryBoundsError { addr: self.i_reg + s as u16 })
            } else {
                Ok(())
            },
            OpCode::READ { s } => if self.i_reg + s as u16 >= 4096 {
                Err(Chip8Error::MemoryBoundsError { addr: self.i_reg + s as u16 })
            } else {
                Ok(())
            },
            _ => Ok(()),
        }
    }

    /// Apply one decoded instruction to the state. The caller has already
    /// advanced the program counter past the instruction and ruled the
    /// faults out.
    fn execute_opcode(&mut self, op: OpCode)
        requires
            old(self).wf(),
            op_wf(op),
            step_ok(old(self)@, op),
        ensures
            final(self).wf(),
            (op matches OpCode::RAND { t, nn } ==> exists|b: u8|
                b <= nn && final(self)@ == step_view(old(self)@, op, b)),
            (!(op matches OpCode::RAND { .. }) ==> final(self)@ == step_view(old(self)@, op, 0)),
    {
        match op {
            OpCode::SYS { addr } => {},
            OpCode::CLR => self.clr(),
            OpCode::RET => self.ret(),
            OpCode::JUMP { addr } => self.jump(addr),
            OpCode::CALL { addr } => self.call(addr),
            OpCode::SKE { s, nn } => self.ske(s, nn),
            OpCode::SKNE { s, nn } => self.skne(s, nn),
            OpCode::SKRE { s, t } => self.skre(s, t),
            OpCode::LOAD { s, nn } => self.load(s, nn),
            OpCode::ADD { s, nn } => self.add(s, nn),
            OpCode::MOVE { s, t } => self.move_reg(s, t),
            OpCode::OR { s, t } => self.or(s, t),
            OpCode::AND { s, t } => self.and(s, t),
            OpCode::XOR { s, t } => self.xor(s, t),
            OpCode::ADDR { s, t } => self.addr(s, t),
            OpCode::SUB { s, t } => self.sub(s, t),
            OpCode::SHR { s } => self.shr(s),
            OpCode::SHL { s } => self.shl(s),
            OpCode::SKRNE { s, t } => self.skrne(s, t),
            OpCode::LOADI { addr } => self.loadi(addr),
            OpCode::JUMPI { addr } => self.jumpi(addr),
            OpCode::RAND { t, nn } => self.rand(t, nn),
            OpCode::DRAW { s, t, n } => self.draw(s, t, n),
            OpCode::SKP { s } => self.skp(s),
            OpCode::SKNP { s } => self.sknp(s),
            OpCode::MOVED { t } => self.moved(t),
            OpCode::KEYD { t } => self.keyd(t),
            OpCode::LOADD { s } => self.loadd(s),
            OpCode::LOADS { s } => self.loads(s),
            OpCode::ADDI { s } => self.addi(s),
            OpCode::LDSPR { s } => self.ldspr(s),
            OpCode::BCD { s } => self.bcd(s),
            OpCode::STOR { s } => self.stor(s),
            OpCode::READ { s } => self.read(s),
        }
    }

    /// One fetch-decode-execute step, or one poll of an awaited key; the
    /// full relation between the states before and after and the result is
    /// `cycle_spec`. On any error the machine is left exactly as it was.
    pub fn run_cycle(&mut self) -> (r: Result<(), Chip8Error>)
        requires
            old(self).wf(),
        ensures
            final(self).wf(),
            cycle_spec(old(self)@, final(self)@, r),
    {
        match self.awaiting_key {
            Some(k) => {
                if self.keys.get(k) {
                    self.awaiting_key = None;
                    proof {
                        assert(self@ =~= (MachineView { awaiting: None, ..old(self)@ }));
                    }
                }
                Ok(())
            },
            None => {
                if self.pc >= 4095 {
                    let addr = if self.pc >= 4096 {
                        self.pc
                    } else {
                        self.pc + 1
                    };
                    return Err(Chip8Error::MemoryBoundsError { addr });
                }
                let word = self.fetch_opcode();
                let op = match opcode::decode(word) {
                    Some(op) => op,
                    None => {
                        return Err(Chip8Error::DecodeError { word, pc: self.pc });
                    },
                };
                match self.check_op(op) {
                    Ok(()) => {},
                    Err(e) => {
                        return Err(e);
                    },
                }
                self.pc = self.pc + 2;
                proof {
                    assert(self@ =~= (MachineView { pc: (old(self)@.pc + 2) as u16, ..old(self)@ }));
                }
                self.execute_opcode(op);
                Ok(())
            },
        }
    }
}

} // verus!

