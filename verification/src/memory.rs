//! The 65536-word address space and its two memory-mapped keyboard
//! registers.
//!
//! Writes always land in the backing storage, the reserved device addresses
//! included.  Reads of the keyboard status register report whether a key is
//! pending; reads of the keyboard data register consume a pending key, and
//! when none is pending they fall back to the word last stored at that
//! address — the deliberate staleness of a real device register, not a reset
//! to zero.  Reading any other address in the device region has no defined
//! mapping; callers rule it out and report it as a fault.

use vstd::prelude::*;
use crate::keyboard::KeyboardIO;

verus! {

/// Number of addressable words.
pub const MEM_SIZE: usize = 65536;

/// Keyboard status register: bit 15 reports a pending key.
pub const KBSR: u16 = 0xFE00;

/// Keyboard data register: reading it consumes a pending key.
pub const KBDR: u16 = 0xFE02;

/// Whether `addr` may be read: plain storage below the device region, or one
/// of the two mapped keyboard registers.
pub open spec fn valid_read_addr(addr: u16) -> bool {
    addr < KBSR || addr == KBSR || addr == KBDR
}

/// The address space, with the keyboard capability its device registers
/// delegate to.
pub struct Memory<K: KeyboardIO> {
    data: Vec<u16>,
    io: K,
}

impl<K: KeyboardIO> View for Memory<K> {
    type V = Seq<u16>;

    closed spec fn view(&self) -> Seq<u16> {
        self.data@
    }
}

impl<K: KeyboardIO> Memory<K> {
    /// The fixed size of the backing storage.
    pub closed spec fn wf(&self) -> bool {
        self.data@.len() == MEM_SIZE
    }

    /// Zero-initialized memory over the given keyboard capability.
    pub fn new(keyboard_io: K) -> (m: Memory<K>)
        ensures
            m.wf(),
            m@.len() == MEM_SIZE,
            forall|a: int| 0 <= a < MEM_SIZE ==> m@[a] == 0,
    {
        let mut data: Vec<u16> = Vec::new();
        while data.len() < MEM_SIZE
            invariant
                data@.len() <= MEM_SIZE,
                forall|a: int| 0 <= a < data@.len() ==> data@[a] == 0,
            decreases MEM_SIZE - data@.len(),
        {
            data.push(0);
        }
        Memory { data, io: keyboard_io }
    }

    /// Store `val` at `addr`; stores always reach the backing storage.
    pub fn set_mem(&mut self, addr: u16, val: u16)
        requires
            old(self).wf(),
        ensures
            final(self).wf(),
            final(self)@ == old(self)@.update(addr as int, val),
    {
        self.data.set(addr as usize, val);
    }

    /// Read `addr`.  Below the device region this is the stored word.  The
    /// status register reads as 0x8000 or 0, as the keyboard reports; the
    /// data register reads as a consumed key (a byte) or, with no key
    /// pending, as the word last stored there.  Reads never change the
    /// backing storage.
    pub fn get_mem(&mut self, addr: u16) -> (r: u16)
        requires
            old(self).wf(),
            valid_read_addr(addr),
        ensures
            final(self).wf(),
            final(self)@ == old(self)@,
            addr < KBSR ==> r == old(self)@[addr as int],
            addr == KBSR ==> r == 0x8000 || r == 0,
            addr == KBDR ==> r < 0x100 || r == old(self)@[KBDR as int],
    {
        if addr >= KBSR {
            if addr == KBSR {
                if self.io.check_key() {
                    0x8000
                } else {
                    0
                }
            } else {
                match self.io.get_key() {
                    Some(key) => key as u16,
                    None => self.data[KBDR as usize],
                }
            }
        } else {
            self.data[addr as usize]
        }
    }

    /// Block until the keyboard yields a key, and consume it.  The stored
    /// words stay as they are; what key comes, and when, is the
    /// environment's.
    pub fn wait_key(&mut self) -> (k: u8)
        requires
            old(self).wf(),
        ensures
            final(self).wf(),
            final(self)@ == old(self)@,
    {
        self.io.wait_key()
    }
}

} // verus!
