//! The kinds of memory that a section takes, and how much of each.

use crate::order::SortKey;
use crate::text::text_at_most;
use vstd::prelude::*;

verus! {

/// The kind of memory that a section takes.
#[derive(Clone, Copy, Debug, PartialEq, Eq, Structural)]
pub enum MemoryKind {
    /// Code and read-only data, kept in flash.
    Text,
    /// Initialized data, kept in flash and copied to RAM.
    Data,
    /// Data without stored contents, in RAM only.
    Bss,
}

impl MemoryKind {
    /// The lower-case name of the kind.
    pub open spec fn name(self) -> Seq<char> {
        match self {
            MemoryKind::Text => "text"@,
            MemoryKind::Data => "data"@,
            MemoryKind::Bss => "bss"@,
        }
    }

    /// The place of the kind among the kinds sorted by name.
    pub open spec fn rank(self) -> int {
        match self {
            MemoryKind::Bss => 0,
            MemoryKind::Data => 1,
            MemoryKind::Text => 2,
        }
    }

    /// The lower-case name of the kind.
    pub fn as_str(self) -> (name: &'static str)
        ensures
            name@ == self.name(),
    {
        match self {
            MemoryKind::Text => "text",
            MemoryKind::Data => "data",
            MemoryKind::Bss => "bss",
        }
    }
}

/// Kinds are ranked as their names are ordered.
pub proof fn lemma_rank_orders_as_name(left: MemoryKind, right: MemoryKind)
    ensures
        left.rank() <= right.rank() <==> text_at_most(left.name(), right.name()),
{
    reveal_strlit("text");
    reveal_strlit("data");
    reveal_strlit("bss");
    reveal_with_fuel(crate::text::sequence_at_most, 6);
    assert("bss"@.drop_first().drop_first().drop_first() =~= Seq::<char>::empty());
    assert("data"@.drop_first().drop_first().drop_first().drop_first() =~= Seq::<char>::empty());
    assert("text"@.drop_first().drop_first().drop_first().drop_first() =~= Seq::<char>::empty());
}

/// How many bytes the sections of each kind take, and what that amounts to on the device.
#[derive(Clone, Debug)]
pub struct MemoryTotals {
    pub text: u64,
    pub data: u64,
    pub bss: u64,
    pub flash: u64,
    pub ram: u64,
}

impl MemoryTotals {
    /// The flash and RAM figures follow from the bytes of each kind.
    pub open spec fn well_formed(self) -> bool {
        &&& self.flash == self.text + self.data
        &&& self.ram == self.data + self.bss
    }

    /// The bytes of one kind.
    pub open spec fn of_kind(self, kind: MemoryKind) -> u64 {
        match kind {
            MemoryKind::Text => self.text,
            MemoryKind::Data => self.data,
            MemoryKind::Bss => self.bss,
        }
    }

    /// Whether so many bytes of a kind can be counted in without leaving the range of a `u64`.
    pub open spec fn fits(self, kind: MemoryKind, bytes: u64) -> bool {
        let text = self.text + if kind == MemoryKind::Text { bytes as int } else { 0 };
        let data = self.data + if kind == MemoryKind::Data { bytes as int } else { 0 };
        let bss = self.bss + if kind == MemoryKind::Bss { bytes as int } else { 0 };
        text + data <= u64::MAX && data + bss <= u64::MAX
    }

    /// Counts in `bytes` of a kind and works out flash and RAM anew.
    pub fn add(&mut self, kind: MemoryKind, bytes: u64)
        requires
            old(self).fits(kind, bytes),
        ensures
            final(self).well_formed(),
            final(self).text == old(self).text + if kind == MemoryKind::Text { bytes as int } else { 0 },
            final(self).data == old(self).data + if kind == MemoryKind::Data { bytes as int } else { 0 },
            final(self).bss == old(self).bss + if kind == MemoryKind::Bss { bytes as int } else { 0 },
    {
        match kind {
            MemoryKind::Text => self.text = self.text + bytes,
            MemoryKind::Data => self.data = self.data + bytes,
            MemoryKind::Bss => self.bss = self.bss + bytes,
        }
        self.flash = self.text + self.data;
        self.ram = self.data + self.bss;
    }

    /// Whether so many bytes of a kind can be counted in without leaving the range of a `u64`.
    pub fn has_room_for(&self, kind: MemoryKind, bytes: u64) -> (fits: bool)
        ensures
            fits == self.fits(kind, bytes),
    {
        let text: u128 = self.text as u128 + if kind == MemoryKind::Text { bytes as u128 } else { 0 };
        let data: u128 = self.data as u128 + if kind == MemoryKind::Data { bytes as u128 } else { 0 };
        let bss: u128 = self.bss as u128 + if kind == MemoryKind::Bss { bytes as u128 } else { 0 };
        text + data <= u64::MAX as u128 && data + bss <= u64::MAX as u128
    }
}

impl Default for MemoryTotals {
    /// Nothing counted yet.
    fn default() -> (totals: Self)
        ensures
            totals.text == 0,
            totals.data == 0,
            totals.bss == 0,
            totals.well_formed(),
    {
        MemoryTotals { text: 0, data: 0, bss: 0, flash: 0, ram: 0 }
    }
}

/// A place in a report sorted by kind of memory and then by address.
pub struct MemoryAddress {
    pub memory: MemoryKind,
    pub address: u64,
}

impl View for MemoryAddress {
    type V = MemoryAddress;

    open spec fn view(&self) -> MemoryAddress {
        *self
    }
}

impl SortKey for MemoryAddress {
    open spec fn at_most(left: Self, right: Self) -> bool {
        ||| left.memory.rank() < right.memory.rank()
        ||| left.memory.rank() == right.memory.rank() && left.address <= right.address
    }

    proof fn lemma_total(left: Self, right: Self) {
    }

    proof fn lemma_transitive(low: Self, middle: Self, high: Self) {
    }

    fn is_at_most(&self, other: &Self) -> (below: bool) {
        let mine: u8 = match self.memory {
            MemoryKind::Bss => 0,
            MemoryKind::Data => 1,
            MemoryKind::Text => 2,
        };
        let theirs: u8 = match other.memory {
            MemoryKind::Bss => 0,
            MemoryKind::Data => 1,
            MemoryKind::Text => 2,
        };
        mine < theirs || mine == theirs && self.address <= other.address
    }
}

} // verus!
