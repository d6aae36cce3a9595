use vstd::prelude::*;

verus! {

/// Size of the addressable memory in bytes.
pub const MEM_SIZE: u16 = 0x1000;

/// Address at which a loaded program image begins.
pub const PROGRAM_START: u16 = 0x200;

/// Address of the built-in font table (16 glyphs of 5 bytes each).
pub const FONT_OFFSET: u16 = 0x000;

/// A memory address: 16-bit storage, logically 12-bit.
#[derive(Copy, Clone, Debug, PartialEq, Eq, Structural)]
pub struct Addr(pub u16);

impl Addr {
    /// A well-formed address lies in the 12-bit range.
    pub open spec fn wf(self) -> bool {
        self.0 < MEM_SIZE
    }

    /// Construct an address from a raw 16-bit value, masked to the 12-bit range.
    pub fn masked(v: u16) -> (r: Self)
        ensures
            r.0 == v % MEM_SIZE,
            r.wf(),
    {
        Addr(v % MEM_SIZE)
    }

    /// Move the address by a signed offset, range-checked: `None` when the
    /// result would leave the 12-bit address space.
    pub fn offset(&self, offset: i32) -> (r: Option<Self>)
        ensures
            ({
                let sum = self.0 as int + offset as int;
                if sum < 0 || sum > 0xFFF {
                    r is None
                } else {
                    r == Some(Addr(sum as u16))
                }
            }),
    {
        let sum: i64 = self.0 as i64 + offset as i64;
        if sum < 0 || sum > 0x0FFF {
            None
        } else {
            Some(Addr(sum as u16))
        }
    }
}

/// The built-in font: glyph `d` (0-15) occupies bytes `5*d .. 5*d + 5`;
/// each byte is one 8-pixel row, most significant bit leftmost.
pub open spec fn font_byte_spec(i: int) -> u8 {
    if i == 0 {
        0xF0
    } else if i == 1 {
        0x90
    } else if i == 2 {
        0x90
    } else if i == 3 {
        0x90
    } else if i == 4 {
        0xF0
    } else if i == 5 {
        0x20
    } else if i == 6 {
        0x60
    } else if i == 7 {
        0x20
    } else if i == 8 {
        0x20
    } else if i == 9 {
        0x70
    } else if i == 10 {
        0xF0
    } else if i == 11 {
        0x10
    } else if i == 12 {
        0xF0
    } else if i == 13 {
        0x80
    } else if i == 14 {
        0xF0
    } else if i == 15 {
        0xF0
    } else if i == 16 {
        0x10
    } else if i == 17 {
        0xF0
    } else if i == 18 {
        0x10
    } else if i == 19 {
        0xF0
    } else if i == 20 {
        0x90
    } else if i == 21 {
        0x90
    } else if i == 22 {
        0xF0
    } else if i == 23 {
        0x10
    } else if i == 24 {
        0x10
    } else if i == 25 {
        0xF0
    } else if i == 26 {
        0x80
    } else if i == 27 {
        0xF0
    } else if i == 28 {
        0x10
    } else if i == 29 {
        0xF0
    } else if i == 30 {
        0xF0
    } else if i == 31 {
        0x80
    } else if i == 32 {
        0xF0
    } else if i == 33 {
        0x90
    } else if i == 34 {
        0xF0
    } else if i == 35 {
        0xF0
    } else if i == 36 {
        0x10
    } else if i == 37 {
        0x20
    } else if i == 38 {
        0x40
    } else if i == 39 {
        0x40
    } else if i == 40 {
        0xF0
    } else if i == 41 {
        0x90
    } else if i == 42 {
        0xF0
    } else if i == 43 {
        0x90
    } else if i == 44 {
        0xF0
    } else if i == 45 {
        0xF0
    } else if i == 46 {
        0x90
    } else if i == 47 {
        0xF0
    } else if i == 48 {
        0x10
    } else if i == 49 {
        0xF0
    } else if i == 50 {
        0xF0
    } else if i == 51 {
        0x90
    } else if i == 52 {
        0xF0
    } else if i == 53 {
        0x90
    } else if i == 54 {
        0x90
    } else if i == 55 {
        0xE0
    } else if i == 56 {
        0x90
    } else if i == 57 {
        0xE0
    } else if i == 58 {
        0x90
    } else if i == 59 {
        0xE0
    } else if i == 60 {
        0xF0
    } else if i == 61 {
        0x80
    } else if i == 62 {
        0x80
    } else if i == 63 {
        0x80
    } else if i == 64 {
        0xF0
    } else if i == 65 {
        0xE0
    } else if i == 66 {
        0x80
    } else if i == 67 {
        0x80
    } else if i == 68 {
        0x80
    } else if i == 69 {
        0xE0
    } else if i == 70 {
        0xF0
    } else if i == 71 {
        0x80
    } else if i == 72 {
        0xF0
    } else if i == 73 {
        0x80
    } else if i == 74 {
        0xF0
    } else if i == 75 {
        0xF0
    } else if i == 76 {
        0x80
    } else if i == 77 {
        0xF0
    } else if i == 78 {
        0x80
    } else if i == 79 {
        0x80
    } else {
        0
    }
}

/// One byte of the built-in font table.
pub fn font_byte(i: usize) -> (r: u8)
    requires
        i < 80,
    ensures
        r == font_byte_spec(i as int),
{
    match i {
        0 => 0xF0,
        1 => 0x90,
        2 => 0x90,
        3 => 0x90,
        4 => 0xF0,
        5 => 0x20,
        6 => 0x60,
        7 => 0x20,
        8 => 0x20,
        9 => 0x70,
        10 => 0xF0,
        11 => 0x10,
        12 => 0xF0,
        13 => 0x80,
        14 => 0xF0,
        15 => 0xF0,
        16 => 0x10,
        17 => 0xF0,
        18 => 0x10,
        19 => 0xF0,
        20 => 0x90,
        21 => 0x90,
        22 => 0xF0,
        23 => 0x10,
        24 => 0x10,
        25 => 0xF0,
        26 => 0x80,
        27 => 0xF0,
        28 => 0x10,
        29 => 0xF0,
        30 => 0xF0,
        31 => 0x80,
        32 => 0xF0,
        33 => 0x90,
        34 => 0xF0,
        35 => 0xF0,
        36 => 0x10,
        37 => 0x20,
        38 => 0x40,
        39 => 0x40,
        40 => 0xF0,
        41 => 0x90,
        42 => 0xF0,
        43 => 0x90,
        44 => 0xF0,
        45 => 0xF0,
        46 => 0x90,
        47 => 0xF0,
        48 => 0x10,
        49 => 0xF0,
        50 => 0xF0,
        51 => 0x90,
        52 => 0xF0,
        53 => 0x90,
        54 => 0x90,
        55 => 0xE0,
        56 => 0x90,
        57 => 0xE0,
        58 => 0x90,
        59 => 0xE0,
        60 => 0xF0,
        61 => 0x80,
        62 => 0x80,
        63 => 0x80,
        64 => 0xF0,
        65 => 0xE0,
        66 => 0x80,
        67 => 0x80,
        68 => 0x80,
        69 => 0xE0,
        70 => 0xF0,
        71 => 0x80,
        72 => 0xF0,
        73 => 0x80,
        74 => 0xF0,
        75 => 0xF0,
        76 => 0x80,
        77 => 0xF0,
        78 => 0x80,
        79 => 0x80,
        _ => 0,
    }
}

/// The contents of a freshly initialized memory: the font at the low
/// addresses, the program image from `PROGRAM_START` on, zero elsewhere.
/// A program longer than the remaining space is truncated.
pub open spec fn mem_init(program: Seq<u8>) -> Seq<u8> {
    Seq::new(
        MEM_SIZE as nat,
        |i: int|
            if i < 80 {
                font_byte_spec(i)
            } else if PROGRAM_START <= i && i - PROGRAM_START < program.len() {
                program[i - PROGRAM_START]
            } else {
                0u8
            },
    )
}

/// 4096-byte random access memory.
#[derive(Clone)]
pub struct Mem {
    bytes: Vec<u8>,
}

impl View for Mem {
    type V = Seq<u8>;

    closed spec fn view(&self) -> Seq<u8> {
        self.bytes@
    }
}

impl Mem {
    /// A well-formed memory holds exactly `MEM_SIZE` bytes.
    pub open spec fn wf(self) -> bool {
        self@.len() == MEM_SIZE
    }

    /// Build a memory pre-seeded with the built-in font and the program
    /// image copied in starting at `PROGRAM_START`.
    pub fn new(program: &Vec<u8>) -> (r: Self)
        ensures
            r.wf(),
            r@ == mem_init(program@),
    {
        let mut bytes: Vec<u8> = Vec::new();
        let mut i: usize = 0;
        while i < 0x1000
            invariant
                i <= 0x1000,
                bytes@.len() == i,
                forall|k: int| 0 <= k < i ==> bytes@[k] == 0u8,
            decreases 0x1000 - i,
        {
            bytes.push(0);
            i = i + 1;
        }
        let mut i: usize = 0;
        while i < 80
            invariant
                i <= 80,
                bytes@.len() == 0x1000,
                forall|k: int| 0 <= k < i ==> bytes@[k] == font_byte_spec(k),
                forall|k: int| i <= k < 0x1000 ==> bytes@[k] == 0u8,
            decreases 80 - i,
        {
            bytes[i] = font_byte(i);
            i = i + 1;
        }
        let mut j: usize = 0;
        while j < program.len() && j < 0xE00
            invariant
                j <= program@.len(),
                j <= 0xE00,
                bytes@.len() == 0x1000,
                forall|k: int| 0 <= k < 80 ==> bytes@[k] == font_byte_spec(k),
                forall|k: int| 80 <= k < 0x200 ==> bytes@[k] == 0u8,
                forall|k: int| 0x200 <= k < 0x200 + j ==> bytes@[k] == program@[k - 0x200],
                forall|k: int| 0x200 + j <= k < 0x1000 ==> bytes@[k] == 0u8,
            decreases program@.len() - j,
        {
            bytes[0x200 + j] = program[j];
            j = j + 1;
        }
        let r = Mem { bytes };
        assert(r@ =~= mem_init(program@));
        r
    }

    /// Read the byte at `a`.
    pub fn read(&self, a: Addr) -> (r: u8)
        requires
            self.wf(),
            a.wf(),
        ensures
            r == self@[a.0 as int],
    {
        self.bytes[a.0 as usize]
    }

    /// Overwrite the byte at `a`.
    pub fn write(&mut self, a: Addr, v: u8)
        requires
            old(self).wf(),
            a.wf(),
        ensures
            final(self).wf(),
            final(self)@ == old(self)@.update(a.0 as int, v),
    {
        self.bytes[a.0 as usize] = v;
    }
}

} // verus!
