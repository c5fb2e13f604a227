//! The game process: an image of the memory that was fetched from it, and the
//! writes that are to be sent back.
//!
//! Every reader and editor in this library works on a [`Proc`]. Whoever holds
//! the real process handle fetches the bytes that an operation needs with
//! [`Proc::hold`], runs the operation, and sends [`Proc::take_writes`] back in
//! order.

use std::collections::HashMap;

use vstd::prelude::*;
use vstd::string::*;

use crate::bytes::{get16, get32, get64, put16, put32};
use crate::digits::push_decimal;
use crate::text::wide_to_string;
use crate::unicode::lowercase;

verus! {

broadcast use vstd::std_specs::hash::group_hash_axioms;

/// Name of the game's executable.
pub const PROC_NAME: &'static str = "prospi-Win64-Shipping.exe";

/// State of a committed region.
pub const MEM_COMMIT: u32 = 0x1000;

/// The last address that belongs to the game.
pub const LAST_ADDR: u64 = 0x7FFF_FFFF_FFFF;

/// One byte of the game's memory, and whether its page refuses plain writes.
#[derive(Clone, Copy, Debug)]
pub struct Cell {
    pub byte: u8,
    pub sealed: bool,
}

/// A write that is to be sent to the game. A `code` write goes to pages whose
/// protection has to be lifted first and put back afterwards.
#[derive(Debug)]
pub struct Patch {
    pub addr: u64,
    pub data: Vec<u8>,
    pub code: bool,
}

/// The game process as far as it is known here.
pub struct Proc {
    pub pid: u32,
    /// Load address of the main module, 0 where it is not known.
    pub base: u64,
    /// The bytes that were fetched, by address.
    pub cells: HashMap<u64, Cell>,
    /// The committed regions, in the order in which they were reported: base
    /// address, size, protection, type.
    pub layout: Vec<(u64, u64, u32, u32)>,
    /// The writes that are to be sent back, in order.
    pub writes: Vec<Patch>,
}

/// What a [`Patch`] says.
pub ghost struct Sent {
    pub addr: u64,
    pub data: Seq<u8>,
    pub code: bool,
}

/// What a [`Proc`] holds.
#[verifier::ext_equal]
pub ghost struct Memory {
    pub pid: u32,
    pub base: u64,
    pub cells: Map<u64, Cell>,
    pub layout: Seq<(u64, u64, u32, u32)>,
    pub writes: Seq<Sent>,
}

/// The address `i` bytes after `a`.
#[verifier::inline]
pub open spec fn at(a: u64, i: int) -> u64 {
    a.wrapping_add(i as u64)
}

impl Memory {
    /// All of the `n` bytes from `a` on are known.
    pub open spec fn holds(self, a: u64, n: int) -> bool {
        forall|i: int| 0 <= i < n ==> self.cells.dom().contains(#[trigger] at(a, i))
    }

    /// None of the `n` bytes from `a` on refuses a plain write.
    pub open spec fn open_for(self, a: u64, n: int) -> bool {
        forall|i: int| 0 <= i < n ==> !self.cells[#[trigger] at(a, i)].sealed
    }

    /// The `n` bytes from `a` on.
    pub open spec fn bytes(self, a: u64, n: int) -> Seq<u8> {
        Seq::new(n as nat, |i: int| self.cells[at(a, i)].byte)
    }

    /// What reading `n` bytes from `a` on gives.
    pub open spec fn fetch(self, a: u64, n: int) -> Option<Seq<u8>> {
        if n > 0 && self.holds(a, n) {
            Some(self.bytes(a, n))
        } else {
            None
        }
    }

    /// The byte at `a`, 0 where it cannot be read.
    pub open spec fn u8_at(self, a: u64) -> u8 {
        match self.fetch(a, 1) {
            Some(b) => b[0],
            None => 0,
        }
    }

    /// The sixteen-bit number at `a`, 0 where it cannot be read.
    pub open spec fn u16_at(self, a: u64) -> u16 {
        match self.fetch(a, 2) {
            Some(b) => crate::bytes::le16(b, 0),
            None => 0,
        }
    }

    /// The thirty-two-bit number at `a`, 0 where it cannot be read.
    pub open spec fn u32_at(self, a: u64) -> u32 {
        match self.fetch(a, 4) {
            Some(b) => crate::bytes::le32(b, 0),
            None => 0,
        }
    }

    /// The sixty-four-bit number at `a`, 0 where it cannot be read.
    pub open spec fn u64_at(self, a: u64) -> u64 {
        match self.fetch(a, 8) {
            Some(b) => crate::bytes::le64(b, 0),
            None => 0,
        }
    }

    /// Where `k` lies, counted from `a`.
    #[verifier::inline]
    pub open spec fn offset(a: u64, k: u64) -> int {
        k.wrapping_sub(a) as int
    }

    /// The memory in which `data` stands from `a` on.
    pub open spec fn with_bytes(self, a: u64, data: Seq<u8>) -> Map<u64, Cell> {
        Map::new(
            |k: u64| self.cells.dom().contains(k),
            |k: u64|
                if Memory::offset(a, k) < data.len() {
                    Cell { byte: data[Memory::offset(a, k)], sealed: self.cells[k].sealed }
                } else {
                    self.cells[k]
                },
        )
    }

    /// The memory after `data` was written from `a` on.
    pub open spec fn stored(self, a: u64, data: Seq<u8>, code: bool) -> Memory {
        Memory {
            cells: self.with_bytes(a, data),
            writes: self.writes.push(Sent { addr: a, data, code }),
            ..self
        }
    }

    /// Whether a plain write of `n` bytes from `a` on goes through.
    pub open spec fn accepts(self, a: u64, n: int) -> bool {
        self.holds(a, n) && self.open_for(a, n)
    }

    /// The memory after an attempt to write `data` from `a` on.
    pub open spec fn poke(self, a: u64, data: Seq<u8>) -> Memory {
        if self.accepts(a, data.len() as int) {
            self.stored(a, data, false)
        } else {
            self
        }
    }

    /// The memory after an attempt to patch code from `a` on.
    pub open spec fn poke_code(self, a: u64, data: Seq<u8>) -> Memory {
        if self.holds(a, data.len() as int) {
            self.stored(a, data, true)
        } else {
            self
        }
    }
}

impl View for Patch {
    type V = Sent;

    open spec fn view(&self) -> Sent {
        Sent { addr: self.addr, data: self.data@, code: self.code }
    }
}

impl View for Proc {
    type V = Memory;

    open spec fn view(&self) -> Memory {
        Memory {
            pid: self.pid,
            base: self.base,
            cells: self.cells@,
            layout: self.layout@,
            writes: Seq::new(self.writes@.len(), |i: int| self.writes@[i]@),
        }
    }
}

impl Proc {
    /// A process of which nothing has been fetched yet.
    pub fn empty(pid: u32, base: u64) -> (res: Proc)
        ensures
            res@ == (Memory {
                pid,
                base,
                cells: Map::empty(),
                layout: Seq::empty(),
                writes: Seq::empty(),
            }),
    {
        let res = Proc { pid, base, cells: HashMap::new(), layout: Vec::new(), writes: Vec::new() };
        assert(res@.writes =~= Seq::empty());
        res
    }

    /// Takes note of bytes that were fetched from `a` on.
    pub fn hold(&mut self, a: u64, data: &[u8], sealed: bool)
        ensures
            final(self)@.pid == old(self)@.pid,
            final(self)@.base == old(self)@.base,
            final(self)@.layout == old(self)@.layout,
            final(self)@.writes == old(self)@.writes,
            forall|k: u64| #[trigger]
                final(self)@.cells.dom().contains(k) <==> (old(self)@.cells.dom().contains(k)
                    || Memory::offset(a, k) < data@.len()),
            forall|k: u64| #[trigger]
                final(self)@.cells.dom().contains(k) ==> final(self)@.cells[k] == if Memory::offset(
                    a,
                    k,
                ) < data@.len() {
                    Cell { byte: data@[Memory::offset(a, k)], sealed }
                } else {
                    old(self)@.cells[k]
                },
    {
        let mut i: usize = 0;
        while i < data.len()
            invariant
                i <= data@.len(),
                self.pid == old(self).pid,
                self.base == old(self).base,
                self.layout == old(self).layout,
                self.writes == old(self).writes,
                forall|k: u64| #[trigger]
                    self.cells@.dom().contains(k) <==> (old(self).cells@.dom().contains(k)
                        || Memory::offset(a, k) < i),
                forall|k: u64| #[trigger]
                    self.cells@.dom().contains(k) ==> self.cells@[k] == if Memory::offset(a, k)
                        < i {
                        Cell { byte: data@[Memory::offset(a, k)], sealed }
                    } else {
                        old(self).cells@[k]
                    },
            decreases data@.len() - i,
        {
            self.cells.insert(a.wrapping_add(i as u64), Cell { byte: data[i], sealed });
            i += 1;
        }
    }

    /// Reads `len` bytes from `addr` on: all of them, or nothing.
    pub fn read(&self, addr: u64, len: usize) -> (res: Option<Vec<u8>>)
        ensures
            match res {
                Some(b) => self@.fetch(addr, len as int) == Some(b@),
                None => self@.fetch(addr, len as int) is None,
            },
    {
        self.read_range(addr, len as u64)
    }

    /// Reads a range whose length is counted like an address.
    pub fn read_range(&self, addr: u64, len: u64) -> (res: Option<Vec<u8>>)
        ensures
            match res {
                Some(b) => self@.fetch(addr, len as int) == Some(b@),
                None => self@.fetch(addr, len as int) is None,
            },
    {
        if len == 0 {
            return None;
        }
        let mut out: Vec<u8> = Vec::new();
        let mut i: u64 = 0;
        while i < len
            invariant
                i <= len,
                out@ == self@.bytes(addr, i as int),
                self@.holds(addr, i as int),
                len > 0,
            decreases len - i,
        {
            match self.cells.get(&addr.wrapping_add(i)) {
                Some(c) => {
                    out.push(c.byte);
                },
                None => {
                    assert(!self@.cells.dom().contains(at(addr, i as int)));
                    return None;
                },
            }
            i += 1;
            assert(out@ =~= self@.bytes(addr, i as int));
        }
        Some(out)
    }

    fn set(&mut self, addr: u64, data: &[u8], code: bool)
        requires
            old(self)@.holds(addr, data@.len() as int),
        ensures
            final(self)@ == old(self)@.stored(addr, data@, code),
    {
        let mut i: usize = 0;
        while i < data.len()
            invariant
                i <= data@.len(),
                self.pid == old(self).pid,
                self.base == old(self).base,
                self.layout == old(self).layout,
                self.writes == old(self).writes,
                old(self)@.holds(addr, data@.len() as int),
                self.cells@ == old(self)@.with_bytes(addr, data@.take(i as int)),
            decreases data@.len() - i,
        {
            let k = addr.wrapping_add(i as u64);
            assert(old(self)@.cells.dom().contains(at(addr, i as int)));
            let sealed = match self.cells.get(&k) {
                Some(c) => c.sealed,
                None => false,
            };
            self.cells.insert(k, Cell { byte: data[i], sealed });
            i += 1;
            assert(self.cells@ =~= old(self)@.with_bytes(addr, data@.take(i as int)));
        }
        assert(data@.take(i as int) =~= data@);
        let copy = vstd::slice::slice_to_vec(data);
        assert(copy@ =~= data@);
        self.writes.push(Patch { addr, data: copy, code });
        assert(self@ =~= old(self)@.stored(addr, data@, code));
    }

    /// Writes `data` from `addr` on: all of it, or nothing.
    pub fn write(&mut self, addr: u64, data: &[u8]) -> (res: bool)
        ensures
            res == old(self)@.accepts(addr, data@.len() as int),
            final(self)@ == old(self)@.poke(addr, data@),
    {
        let mut i: usize = 0;
        while i < data.len()
            invariant
                i <= data@.len(),
                *self == *old(self),
                self@.accepts(addr, i as int),
            decreases data@.len() - i,
        {
            let fits = match self.cells.get(&addr.wrapping_add(i as u64)) {
                Some(c) => !c.sealed,
                None => false,
            };
            if !fits {
                assert(!(self@.cells.dom().contains(at(addr, i as int))
                    && !self@.cells[at(addr, i as int)].sealed));
                return false;
            }
            i += 1;
        }
        self.set(addr, data, false);
        true
    }

    /// Patches code from `addr` on. Code pages are sealed, so this lifts their
    /// protection for the write.
    pub fn write_code(&mut self, addr: u64, data: &[u8]) -> (res: bool)
        ensures
            res == old(self)@.holds(addr, data@.len() as int),
            final(self)@ == old(self)@.poke_code(addr, data@),
    {
        let mut i: usize = 0;
        while i < data.len()
            invariant
                i <= data@.len(),
                *self == *old(self),
                self@.holds(addr, i as int),
            decreases data@.len() - i,
        {
            let known = match self.cells.get(&addr.wrapping_add(i as u64)) {
                Some(_) => true,
                None => false,
            };
            if !known {
                assert(!self@.cells.dom().contains(at(addr, i as int)));
                return false;
            }
            i += 1;
        }
        self.set(addr, data, true);
        true
    }

    /// Writes one byte.
    pub fn put_byte(&mut self, addr: u64, v: u8) -> (res: bool)
        ensures
            res == old(self)@.accepts(addr, 1),
            final(self)@ == old(self)@.poke(addr, seq![v]),
    {
        let data = [v];
        assert(data@ =~= seq![v]);
        self.write(addr, &data)
    }

    /// Writes a sixteen-bit number.
    pub fn put_u16(&mut self, addr: u64, v: u16) -> (res: bool)
        ensures
            res == old(self)@.accepts(addr, 2),
            final(self)@ == old(self)@.poke(addr, crate::bytes::bytes16(v)),
    {
        self.write(addr, &put16(v))
    }

    /// Writes a thirty-two-bit number.
    pub fn put_u32(&mut self, addr: u64, v: u32) -> (res: bool)
        ensures
            res == old(self)@.accepts(addr, 4),
            final(self)@ == old(self)@.poke(addr, crate::bytes::bytes32(v)),
    {
        self.write(addr, &put32(v))
    }

    /// The byte at `a`, 0 where it cannot be read.
    pub fn u8_at(&self, a: u64) -> (res: u8)
        ensures
            res == self@.u8_at(a),
    {
        match self.read(a, 1) {
            Some(b) => b[0],
            None => 0,
        }
    }

    /// The sixteen-bit number at `a`, 0 where it cannot be read.
    pub fn u16_at(&self, a: u64) -> (res: u16)
        ensures
            res == self@.u16_at(a),
    {
        match self.read(a, 2) {
            Some(b) => get16(&b, 0),
            None => 0,
        }
    }

    /// The thirty-two-bit number at `a`, 0 where it cannot be read.
    pub fn u32_at(&self, a: u64) -> (res: u32)
        ensures
            res == self@.u32_at(a),
    {
        match self.read(a, 4) {
            Some(b) => get32(&b, 0),
            None => 0,
        }
    }

    /// The sixty-four-bit number at `a`, 0 where it cannot be read.
    pub fn u64_at(&self, a: u64) -> (res: u64)
        ensures
            res == self@.u64_at(a),
    {
        match self.read(a, 8) {
            Some(b) => get64(&b, 0),
            None => 0,
        }
    }
}

/// Whether a page with this protection can be written. Only the low byte says
/// what is allowed; guard pages are left alone.
pub open spec fn can_write(protect: u32) -> bool {
    let low = protect % 0x100;
    (low == 0x04 || low == 0x08 || low == 0x40 || low == 0x80) && protect / 0x100 % 2 == 0
}

/// Whether a page with this protection holds code.
pub open spec fn can_execute(protect: u32) -> bool {
    let low = protect % 0x100;
    (low == 0x10 || low == 0x20 || low == 0x40 || low == 0x80) && protect / 0x100 % 2 == 0
}

/// Whether a page with this protection can be written.
pub fn writable(prot: u32) -> (res: bool)
    ensures
        res == can_write(prot),
{
    let low: u32 = prot % 0x100;
    (low == 0x04 || low == 0x08 || low == 0x40 || low == 0x80) && prot / 0x100 % 2 == 0
}

/// Whether a page with this protection holds code.
pub fn executable(prot: u32) -> (res: bool)
    ensures
        res == can_execute(prot),
{
    let low: u32 = prot % 0x100;
    (low == 0x10 || low == 0x20 || low == 0x40 || low == 0x80) && prot / 0x100 % 2 == 0
}

/// Base and size of the regions that can be written.
pub open spec fn writable_part(layout: Seq<(u64, u64, u32, u32)>) -> Seq<(u64, u64)> {
    layout.filter(|r: (u64, u64, u32, u32)| can_write(r.2)).map_values(
        |r: (u64, u64, u32, u32)| (r.0, r.1),
    )
}

/// Base and size of the regions that hold code.
pub open spec fn code_part(layout: Seq<(u64, u64, u32, u32)>) -> Seq<(u64, u64)> {
    layout.filter(|r: (u64, u64, u32, u32)| can_execute(r.2)).map_values(
        |r: (u64, u64, u32, u32)| (r.0, r.1),
    )
}

/// The message for a game that is not running.
pub open spec fn no_process() -> Seq<char> {
    "找不到行程 "@ + PROC_NAME@
}

/// The message for a game that cannot be opened.
pub open spec fn no_access(pid: u32) -> Seq<char> {
    "OpenProcess 失敗 (pid "@ + crate::digits::decimal(pid as nat) + ")"@
}

impl Proc {
    /// Attaches to the game, given the process number that was found, whether
    /// the process could be opened, and the load address of its main module.
    pub fn attach(pid: Option<u32>, opened: bool, base: Option<u64>) -> (res: Result<Proc, String>)
        ensures
            match res {
                Ok(p) => {
                    &&& pid is Some
                    &&& opened
                    &&& p@ == (Memory {
                        pid: pid->0,
                        base: match base {
                            Some(b) => b,
                            None => 0,
                        },
                        cells: Map::empty(),
                        layout: Seq::empty(),
                        writes: Seq::empty(),
                    })
                },
                Err(e) => {
                    ||| pid is None && e@ == no_process()
                    ||| pid is Some && !opened && e@ == no_access(pid->0)
                },
            },
    {
        let pid = match pid {
            Some(pid) => pid,
            None => {
                let mut s = "找不到行程 ".to_owned();
                s.append(PROC_NAME);
                return Err(s);
            },
        };
        if !opened {
            let mut s = "OpenProcess 失敗 (pid ".to_owned();
            push_decimal(&mut s, pid as u64);
            s.append(")");
            return Err(s);
        }
        Ok(
            Proc::empty(
                pid,
                match base {
                    Some(b) => b,
                    None => 0,
                },
            ),
        )
    }

    /// Takes note of the answer to a query about the region at `addr`, and
    /// says which address to ask about next, if any. The walk starts at 0.
    pub fn note_region(
        &mut self,
        addr: u64,
        base: u64,
        size: u64,
        state: u32,
        protect: u32,
        kind: u32,
    ) -> (res: Option<u64>)
        ensures
            ({
                let next = base.wrapping_add(size);
                &&& final(self)@ == if next > addr && state == MEM_COMMIT {
                    Memory { layout: old(self)@.layout.push((base, size, protect, kind)), ..old(self)@ }
                } else {
                    old(self)@
                }
                &&& res == if next > addr && next <= LAST_ADDR {
                    Some(next)
                } else {
                    None::<u64>
                }
                &&& res is Some ==> res->0 > addr
            }),
    {
        let next = base.wrapping_add(size);
        if next <= addr {
            return None;
        }
        if state == MEM_COMMIT {
            self.layout.push((base, size, protect, kind));
        }
        if next > LAST_ADDR {
            return None;
        }
        Some(next)
    }

    /// The committed regions: base address, size, protection, type.
    pub fn regions(&self) -> (res: Vec<(u64, u64, u32, u32)>)
        ensures
            res@ == self@.layout,
    {
        let mut out: Vec<(u64, u64, u32, u32)> = Vec::new();
        let mut i: usize = 0;
        while i < self.layout.len()
            invariant
                i <= self.layout@.len(),
                out@ == self.layout@.take(i as int),
            decreases self.layout@.len() - i,
        {
            out.push(self.layout[i]);
            i += 1;
            assert(out@ =~= self.layout@.take(i as int));
        }
        assert(out@ =~= self.layout@);
        out
    }

    /// Base and size of the regions that can be written.
    pub fn writable_ranges(&self) -> (res: Vec<(u64, u64)>)
        ensures
            res@ == writable_part(self@.layout),
    {
        let ghost keep = |r: (u64, u64, u32, u32)| can_write(r.2);
        let ghost cut = |r: (u64, u64, u32, u32)| (r.0, r.1);
        let mut out: Vec<(u64, u64)> = Vec::new();
        let mut i: usize = 0;
        assert(out@ =~= self.layout@.take(0).filter(keep).map_values(cut)) by {
            reveal(Seq::filter);
        }
        while i < self.layout.len()
            invariant
                i <= self.layout@.len(),
                keep == (|r: (u64, u64, u32, u32)| can_write(r.2)),
                cut == (|r: (u64, u64, u32, u32)| (r.0, r.1)),
                out@ == self.layout@.take(i as int).filter(keep).map_values(cut),
            decreases self.layout@.len() - i,
        {
            proof {
                reveal(Seq::filter);
                assert(self.layout@.take(i + 1).drop_last() =~= self.layout@.take(i as int));
            }
            if writable(self.layout[i].2) {
                out.push((self.layout[i].0, self.layout[i].1));
            }
            i += 1;
            assert(out@ =~= self.layout@.take(i as int).filter(keep).map_values(cut));
        }
        assert(self.layout@.take(i as int) =~= self.layout@);
        out
    }

    /// Base and size of the regions that hold code. Most code pages cannot be
    /// written, so a search for instructions has to go through these.
    pub fn exec_ranges(&self) -> (res: Vec<(u64, u64)>)
        ensures
            res@ == code_part(self@.layout),
    {
        let ghost keep = |r: (u64, u64, u32, u32)| can_execute(r.2);
        let ghost cut = |r: (u64, u64, u32, u32)| (r.0, r.1);
        let mut out: Vec<(u64, u64)> = Vec::new();
        let mut i: usize = 0;
        assert(out@ =~= self.layout@.take(0).filter(keep).map_values(cut)) by {
            reveal(Seq::filter);
        }
        while i < self.layout.len()
            invariant
                i <= self.layout@.len(),
                keep == (|r: (u64, u64, u32, u32)| can_execute(r.2)),
                cut == (|r: (u64, u64, u32, u32)| (r.0, r.1)),
                out@ == self.layout@.take(i as int).filter(keep).map_values(cut),
            decreases self.layout@.len() - i,
        {
            proof {
                reveal(Seq::filter);
                assert(self.layout@.take(i + 1).drop_last() =~= self.layout@.take(i as int));
            }
            if executable(self.layout[i].2) {
                out.push((self.layout[i].0, self.layout[i].1));
            }
            i += 1;
            assert(out@ =~= self.layout@.take(i as int).filter(keep).map_values(cut));
        }
        assert(self.layout@.take(i as int) =~= self.layout@);
        out
    }

    /// Hands out the writes that are to be sent, in order, and forgets them.
    pub fn take_writes(&mut self) -> (res: Vec<Patch>)
        ensures
            res@.len() == old(self)@.writes.len(),
            forall|i: int| 0 <= i < res@.len() ==> (#[trigger] res@[i])@ == old(self)@.writes[i],
            final(self)@ == (Memory { writes: Seq::empty(), ..old(self)@ }),
    {
        let mut out: Vec<Patch> = Vec::new();
        std::mem::swap(&mut out, &mut self.writes);
        assert(self@.writes =~= Seq::empty());
        out
    }
}

/// Whether an executable's wide name is `name`, whatever the case of letters.
pub open spec fn same_module(wide: Seq<u16>, name: Seq<char>) -> bool {
    crate::unicode::lowered(crate::text::wide_text(wide)) == crate::unicode::lowered(name)
}

/// The number of the first running process whose executable is `name`.
pub fn find_pid(entries: &Vec<(Vec<u16>, u32)>, name: &str) -> (res: Option<u32>)
    ensures
        match res {
            Some(pid) => exists|i: int|
                0 <= i < entries@.len() && (#[trigger] entries@[i]).1 == pid && same_module(
                    entries@[i].0@,
                    name@,
                ) && forall|j: int|
                    0 <= j < i ==> !same_module((#[trigger] entries@[j]).0@, name@),
            None => forall|i: int|
                0 <= i < entries@.len() ==> !same_module((#[trigger] entries@[i]).0@, name@),
        },
{
    let want = lowercase(name);
    let mut i: usize = 0;
    while i < entries.len()
        invariant
            i <= entries@.len(),
            want@ == crate::unicode::lowered(name@),
            forall|j: int| 0 <= j < i ==> !same_module((#[trigger] entries@[j]).0@, name@),
        decreases entries@.len() - i,
    {
        let got = lowercase(wide_to_string(&entries[i].0).as_str());
        if got == want {
            assert(same_module(entries@[i as int].0@, name@));
            return Some(entries[i].1);
        }
        i += 1;
    }
    None
}

/// The load address of the first module of a process that is called `name`.
pub fn module_base(entries: &Vec<(Vec<u16>, u64)>, name: &str) -> (res: Option<u64>)
    ensures
        match res {
            Some(base) => exists|i: int|
                0 <= i < entries@.len() && (#[trigger] entries@[i]).1 == base && same_module(
                    entries@[i].0@,
                    name@,
                ) && forall|j: int|
                    0 <= j < i ==> !same_module((#[trigger] entries@[j]).0@, name@),
            None => forall|i: int|
                0 <= i < entries@.len() ==> !same_module((#[trigger] entries@[i]).0@, name@),
        },
{
    let want = lowercase(name);
    let mut i: usize = 0;
    while i < entries.len()
        invariant
            i <= entries@.len(),
            want@ == crate::unicode::lowered(name@),
            forall|j: int| 0 <= j < i ==> !same_module((#[trigger] entries@[j]).0@, name@),
        decreases entries@.len() - i,
    {
        let got = lowercase(wide_to_string(&entries[i].0).as_str());
        if got == want {
            assert(same_module(entries@[i as int].0@, name@));
            return Some(entries[i].1);
        }
        i += 1;
    }
    None
}

/// What was written is read back.
pub proof fn read_after_write(m: Memory, a: u64, data: Seq<u8>)
    requires
        m.accepts(a, data.len() as int),
        0 < data.len() <= u64::MAX,
    ensures
        m.poke(a, data).fetch(a, data.len() as int) == Some(data),
{
    let n = m.poke(a, data);
    assert forall|i: int| 0 <= i < data.len() implies n.cells.dom().contains(#[trigger] at(a, i))
        && n.cells[at(a, i)].byte == data[i] by {
        assert(m.cells.dom().contains(at(a, i)));
        assert(Memory::offset(a, at(a, i)) == i);
    }
    assert(n.bytes(a, data.len() as int) =~= data);
}

/// A write leaves every byte outside its range as it was.
pub proof fn write_keeps_the_rest(m: Memory, a: u64, data: Seq<u8>, b: u64, n: int)
    requires
        0 <= n <= u64::MAX,
        forall|i: int| 0 <= i < n ==> Memory::offset(a, #[trigger] at(b, i)) >= data.len(),
    ensures
        m.poke(a, data).fetch(b, n) == m.fetch(b, n),
        m.poke(a, data).accepts(b, n) == m.accepts(b, n),
        m.poke_code(a, data).fetch(b, n) == m.fetch(b, n),
        m.poke_code(a, data).accepts(b, n) == m.accepts(b, n),
{
    let w1 = m.poke(a, data);
    let w2 = m.poke_code(a, data);
    assert(forall|i: int|
        0 <= i < n ==> w1.cells.dom().contains(#[trigger] at(b, i)) == m.cells.dom().contains(at(b, i)));
    assert(forall|i: int|
        0 <= i < n ==> w2.cells.dom().contains(#[trigger] at(b, i)) == m.cells.dom().contains(at(b, i)));
    if m.holds(b, n) {
        assert forall|i: int| 0 <= i < n implies w1.cells[#[trigger] at(b, i)] == m.cells[at(b, i)]
            && w2.cells[at(b, i)] == m.cells[at(b, i)] by {
            assert(m.cells.dom().contains(at(b, i)));
        }
        assert(w1.bytes(b, n) =~= m.bytes(b, n));
        assert(w2.bytes(b, n) =~= m.bytes(b, n));
    }
}

/// No write changes which addresses are known, nor which are sealed.
pub proof fn write_keeps_access(m: Memory, a: u64, data: Seq<u8>, b: u64, n: int)
    requires
        0 <= n <= u64::MAX,
    ensures
        m.poke(a, data).holds(b, n) == m.holds(b, n),
        m.poke(a, data).accepts(b, n) == m.accepts(b, n),
        m.poke_code(a, data).holds(b, n) == m.holds(b, n),
        m.poke_code(a, data).accepts(b, n) == m.accepts(b, n),
{
    let w1 = m.poke(a, data);
    let w2 = m.poke_code(a, data);
    assert(forall|i: int|
        0 <= i < n ==> w1.cells.dom().contains(#[trigger] at(b, i)) == m.cells.dom().contains(at(b, i)));
    assert(forall|i: int|
        0 <= i < n ==> w2.cells.dom().contains(#[trigger] at(b, i)) == m.cells.dom().contains(at(b, i)));
    if m.holds(b, n) {
        assert forall|i: int| 0 <= i < n implies w1.cells[#[trigger] at(b, i)].sealed == m.cells[at(
            b,
            i,
        )].sealed && w2.cells[at(b, i)].sealed == m.cells[at(b, i)].sealed by {
            assert(m.cells.dom().contains(at(b, i)));
        }
    }
}

/// `b` with `data` in place of the bytes from `off` on.
pub open spec fn splice(b: Seq<u8>, off: int, data: Seq<u8>) -> Seq<u8> {
    b.take(off) + data + b.skip(off + data.len())
}

/// A write into an object changes the bytes that were written, and no others.
pub proof fn object_after_write(m: Memory, obj: u64, n: int, off: int, data: Seq<u8>)
    requires
        m.fetch(obj, n) is Some,
        0 <= off,
        off + data.len() <= n <= u64::MAX,
        m.accepts(at(obj, off), data.len() as int),
    ensures
        m.poke(at(obj, off), data).fetch(obj, n) == Some(splice(m.bytes(obj, n), off, data)),
{
    let a = at(obj, off);
    let w = m.poke(a, data);
    assert forall|i: int| 0 <= i < n implies w.cells.dom().contains(#[trigger] at(obj, i)) by {
        assert(m.cells.dom().contains(at(obj, i)));
    }
    assert forall|i: int| 0 <= i < n implies w.cells[#[trigger] at(obj, i)].byte == splice(
        m.bytes(obj, n),
        off,
        data,
    )[i] by {
        assert(m.cells.dom().contains(at(obj, i)));
        if off <= i < off + data.len() {
            assert(Memory::offset(a, at(obj, i)) == i - off);
        } else {
            assert(Memory::offset(a, at(obj, i)) >= data.len());
        }
    }
    assert(w.bytes(obj, n) =~= splice(m.bytes(obj, n), off, data));
}

/// What a page allows: of the low byte of its protection just one bit counts.
/// It can be written if that is the one for reading and writing, for copying on
/// write, or one of those two with execution; it holds code if it is any of the
/// four with execution. A guard page allows neither.
pub proof fn what_a_page_allows(protect: u32)
    ensures
        can_write(protect) == (protect & 0x100 == 0 && (protect & 0xFF == 0x04 || protect & 0xFF
            == 0x08 || protect & 0xFF == 0x40 || protect & 0xFF == 0x80)),
        can_execute(protect) == (protect & 0x100 == 0 && (protect & 0xFF == 0x10 || protect & 0xFF
            == 0x20 || protect & 0xFF == 0x40 || protect & 0xFF == 0x80)),
{
    assert(protect & 0xFF == protect % 0x100) by (bit_vector);
    assert((protect & 0x100 == 0) == (protect / 0x100 % 2 == 0)) by (bit_vector);
}

/// A region is searched for players just if it can be written, and for code just
/// if it holds code.
pub proof fn which_regions_are_searched(layout: Seq<(u64, u64, u32, u32)>, a: u64, n: u64)
    ensures
        writable_part(layout).contains((a, n)) <==> exists|i: int|
            0 <= i < layout.len() && (#[trigger] layout[i]).0 == a && layout[i].1 == n && can_write(
                layout[i].2,
            ),
        code_part(layout).contains((a, n)) <==> exists|i: int|
            0 <= i < layout.len() && (#[trigger] layout[i]).0 == a && layout[i].1 == n
                && can_execute(layout[i].2),
{
    part_of_regions(layout, |r: (u64, u64, u32, u32)| can_write(r.2), a, n);
    part_of_regions(layout, |r: (u64, u64, u32, u32)| can_execute(r.2), a, n);
}

proof fn part_of_regions(
    layout: Seq<(u64, u64, u32, u32)>,
    keep: spec_fn((u64, u64, u32, u32)) -> bool,
    a: u64,
    n: u64,
)
    ensures
        layout.filter(keep).map_values(|r: (u64, u64, u32, u32)| (r.0, r.1)).contains((a, n)) <==> exists|
            i: int,
        |
            0 <= i < layout.len() && (#[trigger] layout[i]).0 == a && layout[i].1 == n && keep(
                layout[i],
            ),
{
    let kept = layout.filter(keep);
    let part = kept.map_values(|r: (u64, u64, u32, u32)| (r.0, r.1));
    if part.contains((a, n)) {
        let k = choose|k: int| 0 <= k < part.len() && part[k] == (a, n);
        layout.lemma_filter_pred(keep, k);
        layout.lemma_filter_contains_rev(keep, kept[k]);
        let i = choose|i: int| 0 <= i < layout.len() && layout[i] == kept[k];
        assert(layout[i].0 == a && layout[i].1 == n && keep(layout[i]));
    }
    if exists|i: int|
        0 <= i < layout.len() && (#[trigger] layout[i]).0 == a && layout[i].1 == n && keep(layout[i]) {
        let i = choose|i: int|
            0 <= i < layout.len() && (#[trigger] layout[i]).0 == a && layout[i].1 == n && keep(
                layout[i],
            );
        layout.lemma_filter_contains(keep, i);
        let k = choose|k: int| 0 <= k < kept.len() && kept[k] == layout[i];
        assert(part[k] == (a, n));
    }
}

} // verus!
