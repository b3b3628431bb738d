//! The robot CPU's register and memory layout: the state the assembled
//! images are loaded into. The instruction and data images are each 256
//! bytes because every address in the instruction set is a single byte.

use vstd::prelude::*;

verus! {

/// How many execution steps one displayed charge level is worth.
const STEPS_PER_CHARGE_LEVEL: u8 = 5;

/// Size of the instruction (BIOS) image: one byte per 8-bit address.
pub const BIOS_MEM_SIZE: usize = 256;

/// Size of the data image: one byte per 8-bit address.
pub const DATA_MEM_SIZE: usize = 256;

/// Size of the player-program memory.
const PROG_MEM_SIZE: usize = 256;

/// Depth of each call stack.
const CALL_STACK_LEN: usize = 16;

/// The input registers.
#[derive(Clone, Copy)]
pub struct Registers {
    rga: u8,
    rgb: u8,
    rgc: u8,
    rgd: u8,
    mem: u8,
}

impl Registers {
    /// Every register holds zero.
    pub closed spec fn is_zeroed(self) -> bool {
        self.rga == 0 && self.rgb == 0 && self.rgc == 0 && self.rgd == 0 && self.mem == 0
    }
}

impl Default for Registers {
    /// The power-on register file: all zeros.
    fn default() -> (r: Self)
        ensures
            r.is_zeroed(),
    {
        Registers { rga: 0, rgb: 0, rgc: 0, rgd: 0, mem: 0 }
    }
}

/// One inventory item.
#[derive(Clone, Copy)]
struct Item {
    id: u8,
}

/// A robot's full machine state.
#[derive(Clone)]
pub struct Robot {
    /// Input registers.
    reg: Registers,
    /// Output register.
    ret: u8,
    /// BIOS memory.
    bios: [u8; BIOS_MEM_SIZE],
    /// BIOS call stack.
    bios_call_stack: [u8; CALL_STACK_LEN],
    /// Current position in the BIOS call stack.
    bios_call_stack_pos: u8,
    /// General-use memory.
    memory: [u8; DATA_MEM_SIZE],
    /// Program memory.
    progmem: [u8; PROG_MEM_SIZE],
    /// Program call stack.
    prog_call_stack: [u8; CALL_STACK_LEN],
    /// Current position in the program call stack.
    prog_call_stack_pos: u8,
    /// Attached components.
    components: Vec<()>,
    /// Inventory.
    inventory: Vec<Item>,
    /// Battery charge, in steps.
    battery: u16,
    /// Current instruction in the BIOS.
    sp: usize,
    /// Current instruction in program memory.
    psp: usize,
    /// Horizontal position.
    x: usize,
    /// Vertical position.
    y: usize,
}

impl Robot {
    /// The power-on state: every register, memory byte, stack slot and
    /// position is zero, nothing is attached or carried, and the battery is
    /// full.
    pub closed spec fn is_initial(self) -> bool {
        &&& self.reg.is_zeroed()
        &&& self.ret == 0
        &&& (forall|k: int| 0 <= k < BIOS_MEM_SIZE ==> self.bios@[k] == 0u8)
        &&& (forall|k: int| 0 <= k < CALL_STACK_LEN ==> self.bios_call_stack@[k] == 0u8)
        &&& self.bios_call_stack_pos == 0
        &&& (forall|k: int| 0 <= k < DATA_MEM_SIZE ==> self.memory@[k] == 0u8)
        &&& (forall|k: int| 0 <= k < PROG_MEM_SIZE ==> self.progmem@[k] == 0u8)
        &&& (forall|k: int| 0 <= k < CALL_STACK_LEN ==> self.prog_call_stack@[k] == 0u8)
        &&& self.prog_call_stack_pos == 0
        &&& self.components@.len() == 0
        &&& self.inventory@.len() == 0
        &&& self.battery == STEPS_PER_CHARGE_LEVEL as u16 * u8::MAX as u16
        &&& self.sp == 0
        &&& self.psp == 0
        &&& self.x == 0
        &&& self.y == 0
    }
}

impl Default for Robot {
    /// A freshly powered-on robot.
    fn default() -> (r: Self)
        ensures
            r.is_initial(),
    {
        broadcast use vstd::array::axiom_spec_array_fill_for_copy_type;

        Robot {
            reg: Registers::default(),
            ret: 0,
            bios: [0; BIOS_MEM_SIZE],
            bios_call_stack: [0; CALL_STACK_LEN],
            bios_call_stack_pos: 0,
            memory: [0; DATA_MEM_SIZE],
            progmem: [0; PROG_MEM_SIZE],
            prog_call_stack: [0; CALL_STACK_LEN],
            prog_call_stack_pos: 0,
            components: Vec::new(),
            inventory: Vec::new(),
            battery: STEPS_PER_CHARGE_LEVEL as u16 * u8::MAX as u16,
            sp: 0,
            psp: 0,
            x: 0,
            y: 0,
        }
    }
}

} // verus!
