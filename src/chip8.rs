use vstd::prelude::*;
use crate::instruction::{Instruction, DecodeError, decode_spec, opcode_word};

verus! {

/// Bytes of addressable memory.
pub const RAM_BYTES: usize = 4096;

/// Address at which programs are loaded.
pub const PROGRAM_START: usize = 0x200;

/// Framebuffer width in pixels.
pub const SCREEN_WIDTH: u8 = 64;

/// Framebuffer height in pixels.
pub const SCREEN_HEIGHT: u8 = 32;

/// Number of pixels in the framebuffer.
pub const SCREEN_PIXELS: usize = 2048;

/// Register that receives the collision flag of a draw.
pub const FLAG_REGISTER: usize = 0xF;

/// Everything that stops a load, a store or a cycle.
#[derive(Debug, Clone, Copy, PartialEq, Eq, Structural)]
pub enum Chip8Error {
    /// A program of `len` bytes does not fit between the load address and
    /// the end of memory.
    ProgramTooLarge { len: usize },
    /// `len` bytes stored from `addr` would run past the end of memory.
    StoreOutOfBounds { addr: usize, len: usize },
    /// The program counter `addr` has no two-byte instruction in memory.
    FetchOutOfBounds { addr: usize },
    /// The fetched word is no supported instruction.
    Decode(DecodeError),
    /// The rows of a sprite that would be drawn, read from `addr` on, run
    /// past the end of memory.
    SpriteOutOfBounds { addr: usize },
}

/// The mathematical state of a machine.
pub struct MachineState {
    pub ram: Seq<u8>,
    pub registers: Seq<u8>,
    pub index: int,
    pub pc: int,
    pub fb: Seq<bool>,
}

impl MachineState {
    /// Memory, registers and framebuffer have their fixed sizes.
    pub open spec fn wf(self) -> bool {
        &&& self.ram.len() == RAM_BYTES
        &&& self.registers.len() == 16
        &&& self.fb.len() == SCREEN_PIXELS
    }
}

/// Bit `col` of a sprite row, counting from the most significant bit.
pub open spec fn sprite_bit(byte: u8, col: int) -> bool {
    (byte >> ((7 - col) as u8)) & 1u8 == 1u8
}

/// Pixel `k` lies in the part of the framebuffer that an `h`-row sprite
/// anchored at `(sx, sy)` covers once clipped at the right and bottom edges.
pub open spec fn sprite_covers(sx: int, sy: int, h: int, k: int) -> bool {
    &&& 0 <= k < SCREEN_PIXELS
    &&& sx <= k % 64 < sx + 8
    &&& sy <= k / 64 < sy + h
}

/// Pixel `k` is covered by the sprite read from `ram` at `base` and its bit
/// there is set: drawing the sprite flips this pixel.
pub open spec fn sprite_pixel(ram: Seq<u8>, base: int, sx: int, sy: int, h: int, k: int) -> bool {
    sprite_covers(sx, sy, h, k) && sprite_bit(ram[base + k / 64 - sy], k % 64 - sx)
}

/// The framebuffer after the XOR blit of a sprite.
pub open spec fn blit(fb: Seq<bool>, ram: Seq<u8>, base: int, sx: int, sy: int, h: int) -> Seq<
    bool,
> {
    Seq::new(fb.len(), |k: int| fb[k] != sprite_pixel(ram, base, sx, sy, h, k))
}

/// The blit turns off a pixel that was on.
pub open spec fn collides(fb: Seq<bool>, ram: Seq<u8>, base: int, sx: int, sy: int, h: int) -> bool {
    exists|k: int| 0 <= k < fb.len() && #[trigger] sprite_pixel(ram, base, sx, sy, h, k) && fb[k]
}

/// Rows of an `h`-row sprite anchored at row `sy` that lie on screen.
pub open spec fn visible_rows(sy: int, h: int) -> int {
    if h < SCREEN_HEIGHT - sy {
        h
    } else {
        SCREEN_HEIGHT - sy
    }
}

/// The draw instruction with its origin in registers `x_reg` and `y_reg`.
pub open spec fn draw_spec(s: MachineState, x_reg: u8, y_reg: u8, h: u8) -> Result<
    MachineState,
    Chip8Error,
> {
    let sx = s.registers[x_reg as int] % 64;
    let sy = s.registers[y_reg as int] % 32;
    if s.index + visible_rows(sy as int, h as int) > RAM_BYTES {
        Err(Chip8Error::SpriteOutOfBounds { addr: s.index as usize })
    } else {
        let hit = collides(s.fb, s.ram, s.index, sx as int, sy as int, h as int);
        Ok(
            MachineState {
                fb: blit(s.fb, s.ram, s.index, sx as int, sy as int, h as int),
                registers: s.registers.update(FLAG_REGISTER as int, if hit { 1u8 } else { 0u8 }),
                ..s
            },
        )
    }
}

/// The effect of one instruction, after the program counter has advanced.
pub open spec fn execute_spec(s: MachineState, i: Instruction) -> Result<MachineState, Chip8Error> {
    match i {
        Instruction::ClearScreen => Ok(
            MachineState { fb: Seq::new(SCREEN_PIXELS as nat, |k: int| false), ..s },
        ),
        Instruction::Jump { loc } => Ok(MachineState { pc: loc as int, ..s }),
        Instruction::SetRegister { register, value } => Ok(
            MachineState { registers: s.registers.update(register as int, value), ..s },
        ),
        Instruction::AddRegister { register, value } => Ok(
            MachineState {
                registers: s.registers.update(
                    register as int,
                    ((s.registers[register as int] + value) % 256) as u8,
                ),
                ..s
            },
        ),
        Instruction::SetIndex { value } => Ok(MachineState { index: value as int, ..s }),
        Instruction::Display { x_reg, y_reg, num_bytes } => draw_spec(s, x_reg, y_reg, num_bytes),
    }
}

/// The instruction at the program counter.
pub open spec fn fetch_spec(s: MachineState) -> Result<Instruction, Chip8Error> {
    if s.pc + 1 >= RAM_BYTES {
        Err(Chip8Error::FetchOutOfBounds { addr: s.pc as usize })
    } else {
        match decode_spec(opcode_word(s.ram[s.pc], s.ram[s.pc + 1])) {
            Ok(i) => Ok(i),
            Err(e) => Err(Chip8Error::Decode(e)),
        }
    }
}

/// One whole cycle: fetch, advance the program counter by two, execute.
pub open spec fn cycle_spec(s: MachineState) -> Result<MachineState, Chip8Error> {
    match fetch_spec(s) {
        Ok(i) => execute_spec(MachineState { pc: s.pc + 2, ..s }, i),
        Err(e) => Err(e),
    }
}

/// Memory with `data` written from address `addr` on.
pub open spec fn store_spec(ram: Seq<u8>, addr: int, data: Seq<u8>) -> Seq<u8> {
    Seq::new(
        ram.len(),
        |a: int|
            if addr <= a < addr + data.len() {
                data[a - addr]
            } else {
                ram[a]
            },
    )
}

/// The machine state with its memory replaced.
pub open spec fn with_ram(s: MachineState, ram: Seq<u8>) -> MachineState {
    MachineState { ram: ram, ..s }
}

/// The machine: memory, sixteen 8-bit registers, the index register, the
/// program counter and the framebuffer.
pub struct Chip8 {
    ram: [u8; 4096],
    var_registers: [u8; 16],
    index: usize,
    program_counter: usize,
    display_buffer: [bool; 2048],
}

impl View for Chip8 {
    type V = MachineState;

    closed spec fn view(&self) -> MachineState {
        MachineState {
            ram: self.ram@,
            registers: self.var_registers@,
            index: self.index as int,
            pc: self.program_counter as int,
            fb: self.display_buffer@,
        }
    }
}

/// Pixel `k` lies on row `y`, in the first `c` columns from `sx`, and the
/// matching bit of `byte` is set.
spec fn row_pixel(byte: u8, sx: int, y: int, c: int, k: int) -> bool {
    k / 64 == y && sx <= k % 64 < sx + c && sprite_bit(byte, k % 64 - sx)
}

/// The pixels flipped once `rows` full rows of a sprite and the first `c`
/// columns of the next row, whose byte is `byte`, have been drawn.
spec fn drawn_so_far(
    ram: Seq<u8>,
    base: int,
    sx: int,
    sy: int,
    rows: int,
    byte: u8,
    c: int,
    k: int,
) -> bool {
    sprite_pixel(ram, base, sx, sy, rows, k) || (0 <= k < SCREEN_PIXELS && row_pixel(
        byte,
        sx,
        sy + rows,
        c,
        k,
    ))
}

impl Chip8 {
    /// Memory, registers and framebuffer of a machine have their fixed sizes.
    pub proof fn lemma_view_wf(&self)
        ensures
            self@.wf(),
    {
    }

    /// A machine with memory, registers and framebuffer cleared and the
    /// program counter at the load address.
    pub fn new() -> (r: Self)
        ensures
            r@.wf(),
            r@.ram == Seq::new(RAM_BYTES as nat, |a: int| 0u8),
            r@.registers == Seq::new(16, |i: int| 0u8),
            r@.index == 0,
            r@.pc == PROGRAM_START,
            r@.fb == Seq::new(SCREEN_PIXELS as nat, |k: int| false),
    {
        let r = Chip8 {
            ram: [0u8; 4096],
            var_registers: [0u8; 16],
            index: 0,
            program_counter: PROGRAM_START,
            display_buffer: [false; 2048],
        };
        assert(r@.ram =~= Seq::new(RAM_BYTES as nat, |a: int| 0u8));
        assert(r@.registers =~= Seq::new(16, |i: int| 0u8));
        assert(r@.fb =~= Seq::new(SCREEN_PIXELS as nat, |k: int| false));
        r
    }

    /// The value of register `register`.
    pub fn register(&self, register: u8) -> (r: u8)
        requires
            register < 16,
        ensures
            r == self@.registers[register as int],
    {
        self.var_registers[register as usize]
    }

    /// The address of the next instruction to fetch.
    pub fn program_counter(&self) -> (r: usize)
        ensures
            r == self@.pc,
    {
        self.program_counter
    }

    /// The address held in the index register.
    pub fn index(&self) -> (r: usize)
        ensures
            r == self@.index,
    {
        self.index
    }

    /// The byte at address `addr`.
    pub fn memory(&self, addr: usize) -> (r: u8)
        requires
            addr < RAM_BYTES,
        ensures
            r == self@.ram[addr as int],
    {
        self.ram[addr]
    }

    /// The framebuffer, row by row, pixel `(x, y)` at index `y * 64 + x`.
    pub fn display_buffer(&self) -> (r: &[bool; 2048])
        ensures
            r@ == self@.fb,
    {
        &self.display_buffer
    }

    /// Copies `data` into memory from address `addr` on.
    fn copy_into(&mut self, addr: usize, data: &[u8])
        requires
            addr + data@.len() <= RAM_BYTES,
        ensures
            final(self)@ == with_ram(old(self)@, store_spec(old(self)@.ram, addr as int, data@)),
    {
        let ghost s0 = self@;
        let mut i: usize = 0;
        while i < data.len()
            invariant
                addr + data@.len() <= RAM_BYTES,
                0 <= i <= data@.len(),
                self@ == with_ram(s0, self@.ram),
                self@.ram.len() == RAM_BYTES,
                forall|a: int|
                    0 <= a < RAM_BYTES ==> self@.ram[a] == (if addr <= a < addr + i {
                        data@[a - addr]
                    } else {
                        s0.ram[a]
                    }),
            decreases data@.len() - i,
        {
            self.ram[addr + i] = data[i];
            i += 1;
        }
        assert(self@.ram =~= store_spec(s0.ram, addr as int, data@));
    }

    /// Loads a program at the load address. A program longer than the
    /// memory above the load address is refused and nothing is written.
    pub fn load(&mut self, data: &[u8]) -> (r: Result<(), Chip8Error>)
        ensures
            data@.len() <= RAM_BYTES - PROGRAM_START ==> r is Ok && final(self)@ == with_ram(
                old(self)@,
                store_spec(old(self)@.ram, PROGRAM_START as int, data@),
            ),
            data@.len() > RAM_BYTES - PROGRAM_START ==> r == Err::<(), Chip8Error>(
                Chip8Error::ProgramTooLarge { len: data@.len() as usize },
            ) && final(self)@ == old(self)@,
    {
        if data.len() > RAM_BYTES - PROGRAM_START {
            return Err(Chip8Error::ProgramTooLarge { len: data.len() });
        }
        self.copy_into(PROGRAM_START, data);
        Ok(())
    }

    /// Writes `data` into memory from address `addr` on, as a loader of
    /// fonts or other fixed data does. Bytes that would run past the end of
    /// memory are refused and nothing is written.
    pub fn write_memory(&mut self, addr: usize, data: &[u8]) -> (r: Result<(), Chip8Error>)
        ensures
            addr + data@.len() <= RAM_BYTES ==> r is Ok && final(self)@ == with_ram(
                old(self)@,
                store_spec(old(self)@.ram, addr as int, data@),
            ),
            addr + data@.len() > RAM_BYTES ==> r == Err::<(), Chip8Error>(
                Chip8Error::StoreOutOfBounds { addr: addr, len: data@.len() as usize },
            ) && final(self)@ == old(self)@,
    {
        if addr > RAM_BYTES || data.len() > RAM_BYTES - addr {
            return Err(Chip8Error::StoreOutOfBounds { addr: addr, len: data.len() });
        }
        self.copy_into(addr, data);
        Ok(())
    }

    /// Runs one cycle: fetches the instruction at the program counter,
    /// advances the counter by two and executes the instruction. On an error
    /// the machine is left as it was.
    pub fn execute_cycle(&mut self) -> (r: Result<(), Chip8Error>)
        ensures
            match cycle_spec(old(self)@) {
                Ok(s) => r is Ok && final(self)@ == s,
                Err(e) => r == Err::<(), Chip8Error>(e) && final(self)@ == old(self)@,
            },
    {
        let instruction = match self.parse_instruction() {
            Ok(i) => i,
            Err(e) => return Err(e),
        };
        let pc = self.program_counter;
        self.program_counter = pc + 2;
        match self.execute(instruction) {
            Ok(()) => Ok(()),
            Err(e) => {
                self.program_counter = pc;
                Err(e)
            },
        }
    }

    /// The instruction at the program counter.
    fn parse_instruction(&self) -> (r: Result<Instruction, Chip8Error>)
        ensures
            r == fetch_spec(self@),
            r matches Ok(i) ==> i.wf(),
    {
        if self.program_counter >= RAM_BYTES - 1 {
            return Err(Chip8Error::FetchOutOfBounds { addr: self.program_counter });
        }
        match Instruction::decode(
            self.ram[self.program_counter],
            self.ram[self.program_counter + 1],
        ) {
            Ok(i) => Ok(i),
            Err(e) => Err(Chip8Error::Decode(e)),
        }
    }

    /// Executes one decoded instruction against the machine, the program
    /// counter already advanced. On an error the machine is left as it was.
    pub fn execute(&mut self, i: Instruction) -> (r: Result<(), Chip8Error>)
        requires
            i.wf(),
        ensures
            match execute_spec(old(self)@, i) {
                Ok(s) => r is Ok && final(self)@ == s,
                Err(e) => r == Err::<(), Chip8Error>(e) && final(self)@ == old(self)@,
            },
    {
        match i {
            Instruction::ClearScreen => {
                self.display_buffer = [false; 2048];
                assert(self@.fb =~= Seq::new(SCREEN_PIXELS as nat, |k: int| false));
                Ok(())
            },
            Instruction::Jump { loc } => {
                self.program_counter = loc;
                Ok(())
            },
            Instruction::SetRegister { register, value } => {
                self.var_registers[register as usize] = value;
                Ok(())
            },
            Instruction::AddRegister { register, value } => {
                let sum: u16 = self.var_registers[register as usize] as u16 + value as u16;
                self.var_registers[register as usize] = (sum % 256) as u8;
                Ok(())
            },
            Instruction::SetIndex { value } => {
                self.index = value;
                Ok(())
            },
            Instruction::Display { x_reg, y_reg, num_bytes } => self.display(
                x_reg,
                y_reg,
                num_bytes,
            ),
        }
    }

    /// Draws the sprite of `num_bytes` rows read from the index register at
    /// the origin held in registers `x_reg` and `y_reg`, and sets the flag
    /// register to whether a pixel was turned off.
    fn display(&mut self, x_reg: u8, y_reg: u8, num_bytes: u8) -> (r: Result<(), Chip8Error>)
        requires
            x_reg < 16,
            y_reg < 16,
        ensures
            match draw_spec(old(self)@, x_reg, y_reg, num_bytes) {
                Ok(s) => r is Ok && final(self)@ == s,
                Err(e) => r == Err::<(), Chip8Error>(e) && final(self)@ == old(self)@,
            },
    {
        let start_x: usize = (self.var_registers[x_reg as usize] % SCREEN_WIDTH) as usize;
        let start_y: usize = (self.var_registers[y_reg as usize] % SCREEN_HEIGHT) as usize;
        let rows: usize = if (num_bytes as usize) < SCREEN_HEIGHT as usize - start_y {
            num_bytes as usize
        } else {
            SCREEN_HEIGHT as usize - start_y
        };
        let cols: usize = if 8 < SCREEN_WIDTH as usize - start_x {
            8
        } else {
            SCREEN_WIDTH as usize - start_x
        };
        if self.index > RAM_BYTES || rows > RAM_BYTES - self.index {
            return Err(Chip8Error::SpriteOutOfBounds { addr: self.index });
        }
        let ghost s0 = self@;
        let ghost sx = start_x as int;
        let ghost sy = start_y as int;
        let ghost base = self.index as int;
        let mut collided = false;
        let mut row: usize = 0;
        while row < rows
            invariant
                s0.wf(),
                self@.wf(),
                x_reg < 16,
                y_reg < 16,
                sx == s0.registers[x_reg as int] % 64,
                sy == s0.registers[y_reg as int] % 32,
                start_x == sx,
                start_y == sy,
                base == s0.index,
                rows == visible_rows(sy, num_bytes as int),
                cols == if 8 < 64 - sx { 8 } else { 64 - sx },
                base + rows <= RAM_BYTES,
                0 <= row <= rows,
                self@.ram == s0.ram,
                self@.registers == s0.registers,
                self@.index == s0.index,
                self@.pc == s0.pc,
                forall|k: int|
                    0 <= k < SCREEN_PIXELS ==> self@.fb[k] == (s0.fb[k] != sprite_pixel(
                        s0.ram,
                        base,
                        sx,
                        sy,
                        row as int,
                        k,
                    )),
                collided == exists|k: int|
                    0 <= k < SCREEN_PIXELS && #[trigger] sprite_pixel(
                        s0.ram,
                        base,
                        sx,
                        sy,
                        row as int,
                        k,
                    ) && s0.fb[k],
            decreases rows - row,
        {
            let row_byte = self.ram[self.index + row];
            let y = start_y + row;
            let mut col: usize = 0;
            proof {
                assert forall|k: int| 0 <= k < SCREEN_PIXELS implies drawn_so_far(
                    s0.ram,
                    base,
                    sx,
                    sy,
                    row as int,
                    row_byte,
                    0,
                    k,
                ) == sprite_pixel(s0.ram, base, sx, sy, row as int, k) by {}
            }
            while col < cols
                invariant
                    s0.wf(),
                    self@.wf(),
                    start_x == sx,
                    start_y == sy,
                    0 <= sx < 64,
                    0 <= sy < 32,
                    rows <= 32 - sy,
                    cols == if 8 < 64 - sx { 8 } else { 64 - sx },
                    base + rows <= RAM_BYTES,
                    0 <= row < rows,
                    y == sy + row,
                    row_byte == s0.ram[base + row],
                    0 <= col <= cols,
                    self@.ram == s0.ram,
                    self@.registers == s0.registers,
                    self@.index == s0.index,
                    self@.pc == s0.pc,
                    forall|k: int|
                        0 <= k < SCREEN_PIXELS ==> self@.fb[k] == (s0.fb[k] != drawn_so_far(
                            s0.ram,
                            base,
                            sx,
                            sy,
                            row as int,
                            row_byte,
                            col as int,
                            k,
                        )),
                    collided == exists|k: int|
                        0 <= k < SCREEN_PIXELS && #[trigger] drawn_so_far(
                            s0.ram,
                            base,
                            sx,
                            sy,
                            row as int,
                            row_byte,
                            col as int,
                            k,
                        ) && s0.fb[k],
                decreases cols - col,
            {
                let shift: u8 = (7 - col) as u8;
                let pix: bool = (row_byte >> shift) & 1u8 == 1u8;
                assert(y < 32 && start_x + col < 64);
                let idx: usize = y * 64 + start_x + col;
                assert(idx / 64 == y && idx % 64 == sx + col);
                let cur: bool = self.display_buffer[idx];
                assert(!drawn_so_far(s0.ram, base, sx, sy, row as int, row_byte, col as int, idx as int));
                assert(cur == s0.fb[idx as int]);
                let ghost was = collided;
                if pix && cur {
                    collided = true;
                }
                self.display_buffer[idx] = cur != pix;
                proof {
                    assert forall|k: int| 0 <= k < SCREEN_PIXELS implies drawn_so_far(
                        s0.ram,
                        base,
                        sx,
                        sy,
                        row as int,
                        row_byte,
                        col + 1,
                        k,
                    ) == (drawn_so_far(s0.ram, base, sx, sy, row as int, row_byte, col as int, k)
                        || (k == idx && pix)) by {}
                    if pix && cur {
                        assert(drawn_so_far(s0.ram, base, sx, sy, row as int, row_byte, col + 1, idx as int));
                    }
                    if collided {
                        if was {
                            let w = choose|k: int|
                                0 <= k < SCREEN_PIXELS && #[trigger] drawn_so_far(
                                    s0.ram,
                                    base,
                                    sx,
                                    sy,
                                    row as int,
                                    row_byte,
                                    col as int,
                                    k,
                                ) && s0.fb[k];
                            assert(drawn_so_far(s0.ram, base, sx, sy, row as int, row_byte, col + 1, w));
                        }
                    }
                }
                col += 1;
            }
            proof {
                assert forall|k: int| 0 <= k < SCREEN_PIXELS implies drawn_so_far(
                    s0.ram,
                    base,
                    sx,
                    sy,
                    row as int,
                    row_byte,
                    cols as int,
                    k,
                ) == sprite_pixel(s0.ram, base, sx, sy, row + 1, k) by {}
            }
            row += 1;
        }
        self.var_registers[FLAG_REGISTER] = if collided {
            1
        } else {
            0
        };
        proof {
            assert forall|k: int| 0 <= k < SCREEN_PIXELS implies sprite_pixel(
                s0.ram,
                base,
                sx,
                sy,
                rows as int,
                k,
            ) == sprite_pixel(s0.ram, base, sx, sy, num_bytes as int, k) by {}
            assert(self@.fb =~= blit(s0.fb, s0.ram, base, sx, sy, num_bytes as int));
        }
        Ok(())
    }
}

/// The draw in registers `x_reg` and `y_reg` turns on a pixel that was off.
pub open spec fn lights_up(s: MachineState, x_reg: u8, y_reg: u8, h: u8) -> bool {
    let sx = s.registers[x_reg as int] % 64;
    let sy = s.registers[y_reg as int] % 32;
    exists|k: int|
        0 <= k < s.fb.len() && #[trigger] sprite_pixel(s.ram, s.index, sx as int, sy as int, h as int, k)
            && !s.fb[k]
}

/// A cycle that fetches a jump leaves the program counter at the jump's
/// target, not two past it nor two past the old counter, so the next cycle
/// fetches from the target.
pub proof fn lemma_jump_overrides_advance(s: MachineState, loc: usize)
    requires
        s.wf(),
        fetch_spec(s) == Ok::<Instruction, Chip8Error>(Instruction::Jump { loc }),
    ensures
        cycle_spec(s) matches Ok(t) && t.pc == loc && fetch_spec(t) == fetch_spec(
            MachineState { pc: loc as int, ..s },
        ),
{
}

/// Clearing the screen twice leaves the machine as clearing it once does:
/// every pixel off, everything else untouched.
pub proof fn lemma_clear_idempotent(s: MachineState)
    ensures
        execute_spec(s, Instruction::ClearScreen) matches Ok(t) && execute_spec(
            t,
            Instruction::ClearScreen,
        ) == Ok::<MachineState, Chip8Error>(t) && t.fb == Seq::new(
            SCREEN_PIXELS as nat,
            |k: int| false,
        ) && t.ram == s.ram && t.registers == s.registers && t.pc == s.pc && t.index == s.index,
{
}

/// Drawing the same sprite at the same origin twice in a row gives back the
/// framebuffer from before the first draw, and the second draw reports a
/// collision exactly when the first one turned some pixel on.
pub proof fn lemma_draw_twice_restores(s: MachineState, x_reg: u8, y_reg: u8, h: u8)
    requires
        s.wf(),
        x_reg < 16,
        y_reg < 16,
        draw_spec(s, x_reg, y_reg, h) matches Ok(t) && t.registers[x_reg as int]
            == s.registers[x_reg as int] && t.registers[y_reg as int]
            == s.registers[y_reg as int],
    ensures
        draw_spec(s, x_reg, y_reg, h) matches Ok(t) && draw_spec(t, x_reg, y_reg, h) matches Ok(u)
            && u.fb == s.fb && u.registers[FLAG_REGISTER as int] == (if lights_up(
            s,
            x_reg,
            y_reg,
            h,
        ) {
            1u8
        } else {
            0u8
        }),
{
    let t = draw_spec(s, x_reg, y_reg, h)->Ok_0;
    let sx = (s.registers[x_reg as int] % 64) as int;
    let sy = (s.registers[y_reg as int] % 32) as int;
    let u = draw_spec(t, x_reg, y_reg, h)->Ok_0;
    assert(u.fb =~= s.fb);
    if lights_up(s, x_reg, y_reg, h) {
        let k = choose|k: int|
            0 <= k < s.fb.len() && #[trigger] sprite_pixel(s.ram, s.index, sx, sy, h as int, k)
                && !s.fb[k];
        assert(sprite_pixel(t.ram, t.index, sx, sy, h as int, k) && t.fb[k]);
    }
    if collides(t.fb, t.ram, t.index, sx, sy, h as int) {
        let k = choose|k: int|
            0 <= k < t.fb.len() && #[trigger] sprite_pixel(t.ram, t.index, sx, sy, h as int, k)
                && t.fb[k];
        assert(sprite_pixel(s.ram, s.index, sx, sy, h as int, k) && !s.fb[k]);
    }
}

/// A draw clips at the right and bottom edges: no pixel left of or above
/// the origin, nor right of its eight columns or below its rows, changes,
/// so a sprite near an edge never wraps around to the other side.
pub proof fn lemma_draw_clips(s: MachineState, x_reg: u8, y_reg: u8, h: u8)
    requires
        s.wf(),
        x_reg < 16,
        y_reg < 16,
        draw_spec(s, x_reg, y_reg, h) is Ok,
    ensures
        forall|k: int|
            0 <= k < SCREEN_PIXELS && !sprite_covers(
                (s.registers[x_reg as int] % 64) as int,
                (s.registers[y_reg as int] % 32) as int,
                h as int,
                k,
            ) ==> (#[trigger] draw_spec(s, x_reg, y_reg, h)->Ok_0.fb[k]) == s.fb[k],
{
}

} // verus!
