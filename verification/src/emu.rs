//! The decision half of the CPU-emulator shim.
//!
//! Re-running the game's own decoders needs a user-mode x86-64 emulator,
//! which no verified code can drive directly.  Everything the emulator run
//! *decides* lives here: the address-space plan (mappings, section writes,
//! prologue patches), the argument layout of one decode call, the
//! write-watch bookkeeping that captures result fields, and the decoding
//! of captured values.  An unverified runner owns the virtual machine,
//! performs each [`VmAction`] in order, feeds every observed memory write
//! to [`WatchState::on_write`], and hands memory contents back to the
//! verified decoders.

use vstd::prelude::*;
use crate::ReplayError;
use crate::config::{Config, Section, WardSpawnDecrypt};
use crate::numeric::spec_i32_from_f32_bits;
use crate::packet::WardSpawnPacket;
use crate::util::string_from_utf8;
use vstd::bytes::{spec_u64_to_le_bytes, u64_to_le_bytes};

verus! {

/// The page size of the emulated address space.
pub const PAGE_SIZE: u64 = 0x1000;

/// The base of the emulated stack.
pub const STACK_BASE: u64 = 0x7FFF_FFFF_0000;

/// The size of the emulated stack.
pub const STACK_SIZE: u64 = 0x2000;

/// The base of the emulated bump-allocator heap.
pub const HEAP_BASE: u64 = 0x7FFF_FFFF_8000;

/// The size of the emulated heap.
pub const HEAP_SIZE: u64 = 0x2000;

/// The size of the packet object handed to a decoder.
pub const PACKET_SIZE: usize = 0x90;

/// A CPU register the plans write.
#[derive(Clone, Copy, Debug, PartialEq, Eq, Structural)]
pub enum CpuReg {
    Rcx,
    Rdx,
    R8,
    Rsp,
}

/// One step of an address-space plan, for the unverified runner.
#[derive(Debug)]
pub enum VmAction {
    /// Map `size` bytes at `addr`, readable and writable.
    MapRw(u64, u64),
    /// Map `size` bytes at `addr`, readable, writable and executable.
    MapRwx(u64, u64),
    /// Write the bytes at the address.
    WriteMem(u64, Vec<u8>),
    /// Set the register.
    WriteReg(CpuReg, u64),
}

/// The mathematical image of a [`VmAction`].
pub ghost enum VmActionSpec {
    MapRw(u64, u64),
    MapRwx(u64, u64),
    WriteMem(u64, Seq<u8>),
    WriteReg(CpuReg, u64),
}

impl View for VmAction {
    type V = VmActionSpec;

    open spec fn view(&self) -> VmActionSpec {
        match self {
            VmAction::MapRw(a, s) => VmActionSpec::MapRw(*a, *s),
            VmAction::MapRwx(a, s) => VmActionSpec::MapRwx(*a, *s),
            VmAction::WriteMem(a, b) => VmActionSpec::WriteMem(*a, b@),
            VmAction::WriteReg(r, v) => VmActionSpec::WriteReg(*r, *v),
        }
    }
}

/// The mathematical image of a plan: each action's view, in order.
pub open spec fn actions_view(s: Seq<VmAction>) -> Seq<VmActionSpec> {
    s.map_values(|a: VmAction| a@)
}

/// The address rounded down to its page.
pub open spec fn spec_align_addr(addr: u64) -> u64 {
    addr & 0xFFFF_FFFF_FFFF_F000u64
}

/// Rounds an address down to its page.
pub fn align_addr(addr: u64) -> (r: u64)
    ensures
        r == spec_align_addr(addr),
{
    addr & 0xFFFF_FFFF_FFFF_F000u64
}

/// The size rounded up to whole pages.
pub open spec fn spec_align_size(size: u64) -> u64
    recommends
        size + 0xFFF <= u64::MAX,
{
    ((size + 0xFFF) as u64) & 0xFFFF_FFFF_FFFF_F000u64
}

/// Rounds a size up to whole pages; `None` when that overflows.
pub fn align_size(size: u64) -> (r: Option<u64>)
    ensures
        match r {
            Some(v) => size + 0xFFF <= u64::MAX && v == spec_align_size(size),
            None => size + 0xFFF > u64::MAX,
        },
{
    if size > u64::MAX - 0xFFF {
        None
    } else {
        Some((size + 0xFFF) & 0xFFFF_FFFF_FFFF_F000u64)
    }
}

/// The eight bytes that neutralise the skipped check:
/// `mov rax, 1; ret`.
pub open spec fn spec_skip_patch() -> Seq<u8> {
    seq![0x48u8, 0xC7, 0xC0, 0x01, 0x00, 0x00, 0x00, 0xC3]
}

/// Builds the skip patch.
pub fn skip_patch_bytes() -> (r: Vec<u8>)
    ensures
        r@ == spec_skip_patch(),
{
    let v: Vec<u8> = vec![0x48u8, 0xC7, 0xC0, 0x01, 0x00, 0x00, 0x00, 0xC3];
    proof {
        assert(v@ =~= spec_skip_patch());
    }
    v
}

/// The 88-byte replacement allocator: saves all registers, loads the
/// cursor word at the image base, returns `heap base + cursor` and bumps
/// the cursor by the requested size.  The base and heap addresses are
/// baked into the bytes and match `BASE_ADDR` and `HEAP_BASE`.
pub open spec fn spec_alloc_patch() -> Seq<u8> {
    seq![
        0x53u8, 0x57, 0x56, 0x55, 0x41, 0x50, 0x41, 0x51, 0x41, 0x52, 0x41, 0x53, 0x41, 0x54,
        0x41, 0x55, 0x41, 0x56, 0x41, 0x57, 0x48, 0xB8, 0x00, 0x00, 0xFD, 0x6A, 0xF7, 0x7F,
        0x00, 0x00, 0x48, 0x8B, 0x18, 0x48, 0xB8, 0x00, 0x80, 0xFF, 0xFF, 0xFF, 0x7F, 0x00,
        0x00, 0x48, 0x8D, 0x04, 0x18, 0x48, 0x89, 0x01, 0x89, 0x51, 0x08, 0x01, 0xD3, 0x48,
        0xB8, 0x00, 0x00, 0xFD, 0x6A, 0xF7, 0x7F, 0x00, 0x00, 0x89, 0x18, 0x41, 0x5F, 0x41,
        0x5E, 0x41, 0x5D, 0x41, 0x5C, 0x41, 0x5B, 0x41, 0x5A, 0x41, 0x59, 0x41, 0x58, 0x5D,
        0x5E, 0x5F, 0x5B, 0xC3,
    ]
}

/// Builds the allocator patch.
pub fn alloc_patch_bytes() -> (r: Vec<u8>)
    ensures
        r@ == spec_alloc_patch(),
{
    let v: Vec<u8> = vec![
        0x53u8, 0x57, 0x56, 0x55, 0x41, 0x50, 0x41, 0x51, 0x41, 0x52, 0x41, 0x53, 0x41, 0x54,
        0x41, 0x55, 0x41, 0x56, 0x41, 0x57, 0x48, 0xB8, 0x00, 0x00, 0xFD, 0x6A, 0xF7, 0x7F,
        0x00, 0x00, 0x48, 0x8B, 0x18, 0x48, 0xB8, 0x00, 0x80, 0xFF, 0xFF, 0xFF, 0x7F, 0x00,
        0x00, 0x48, 0x8D, 0x04, 0x18, 0x48, 0x89, 0x01, 0x89, 0x51, 0x08, 0x01, 0xD3, 0x48,
        0xB8, 0x00, 0x00, 0xFD, 0x6A, 0xF7, 0x7F, 0x00, 0x00, 0x89, 0x18, 0x41, 0x5F, 0x41,
        0x5E, 0x41, 0x5D, 0x41, 0x5C, 0x41, 0x5B, 0x41, 0x5A, 0x41, 0x59, 0x41, 0x58, 0x5D,
        0x5E, 0x5F, 0x5B, 0xC3,
    ];
    proof {
        assert(v@ =~= spec_alloc_patch());
    }
    v
}

/// The two plan steps of one section: map its pages executable, then
/// write the raw bytes at the exact address.
pub open spec fn spec_section_actions(base: u64, s: Section) -> Seq<VmActionSpec>
    recommends
        base + s.rva <= u64::MAX,
        s.size + 0xFFF <= u64::MAX,
{
    seq![
        VmActionSpec::MapRwx(spec_align_addr((base + s.rva) as u64), spec_align_size(s.size)),
        VmActionSpec::WriteMem((base + s.rva) as u64, s.raw@),
    ]
}

/// Whether the address arithmetic of a setup plan stays inside `u64`.
pub open spec fn spec_setup_ok(c: Config) -> bool {
    &&& c.base_addr + c.text.rva <= u64::MAX
    &&& c.text.size + 0xFFF <= u64::MAX
    &&& c.base_addr + c.data.rva <= u64::MAX
    &&& c.data.size + 0xFFF <= u64::MAX
    &&& c.base_addr + c.rdata.rva <= u64::MAX
    &&& c.rdata.size + 0xFFF <= u64::MAX
    &&& c.base_addr + c.skip <= u64::MAX
    &&& c.base_addr + c.alloc1 <= u64::MAX
    &&& c.base_addr + c.alloc2 <= u64::MAX
}

/// The full setup plan: stack, heap, the heap-cursor page, the three
/// sections, and the three prologue patches.
pub open spec fn spec_setup_actions(c: Config) -> Seq<VmActionSpec>
    recommends
        spec_setup_ok(c),
{
    seq![
        VmActionSpec::MapRw(STACK_BASE, STACK_SIZE),
        VmActionSpec::WriteReg(CpuReg::Rsp, (STACK_BASE + STACK_SIZE - 0x100) as u64),
        VmActionSpec::MapRw(HEAP_BASE, HEAP_SIZE),
        VmActionSpec::MapRw(spec_align_addr(c.base_addr), PAGE_SIZE),
        VmActionSpec::WriteMem(c.base_addr, spec_u64_to_le_bytes(0)),
    ] + spec_section_actions(c.base_addr, c.text) + spec_section_actions(c.base_addr, c.data)
        + spec_section_actions(c.base_addr, c.rdata) + seq![
        VmActionSpec::WriteMem((c.base_addr + c.skip) as u64, spec_skip_patch()),
        VmActionSpec::WriteMem((c.base_addr + c.alloc1) as u64, spec_alloc_patch()),
        VmActionSpec::WriteMem((c.base_addr + c.alloc2) as u64, spec_alloc_patch()),
    ]
}

/// The planner half of one emulator instance: it tracks the bump
/// allocator and the packet object, and emits the actions an unverified
/// runner must perform.
pub struct StubEmulator {
    pub base_addr: u64,
    pub packet_addr: u64,
    pub packet_size: usize,
    pub heap_cursor: u64,
}

impl StubEmulator {
    /// A fresh planner for the given patch image.
    pub fn new(config: &Config) -> (r: StubEmulator)
        ensures
            r.base_addr == config.base_addr,
            r.packet_addr == 0,
            r.packet_size == 0,
            r.heap_cursor == 0,
    {
        StubEmulator { base_addr: config.base_addr, packet_addr: 0, packet_size: 0, heap_cursor: 0 }
    }

    /// The absolute address of an RVA; `None` on overflow.
    pub fn rva_to_address(&self, rva: u64) -> (r: Option<u64>)
        ensures
            match r {
                Some(a) => self.base_addr + rva <= u64::MAX && a == self.base_addr + rva,
                None => self.base_addr + rva > u64::MAX,
            },
    {
        if rva <= u64::MAX - self.base_addr {
            Some(self.base_addr + rva)
        } else {
            None
        }
    }

    /// The RVA of an absolute address; `None` below the base.
    pub fn address_to_rva(&self, addr: u64) -> (r: Option<u64>)
        ensures
            match r {
                Some(v) => addr >= self.base_addr && v == addr - self.base_addr,
                None => addr < self.base_addr,
            },
    {
        if addr >= self.base_addr {
            Some(addr - self.base_addr)
        } else {
            None
        }
    }

    /// The mirrored heap-cursor value.
    pub fn get_heap_cursor(&self) -> (r: u64)
        ensures
            r == self.heap_cursor,
    {
        self.heap_cursor
    }

    /// Overwrites the mirrored heap-cursor value.
    pub fn set_heap_cursor(&mut self, heap_cursor: u64)
        ensures
            *final(self) == (StubEmulator { heap_cursor, ..*old(self) }),
    {
        self.heap_cursor = heap_cursor;
    }

    /// Plans the address-space setup of one instance.  Succeeds exactly
    /// when every planned address fits in the 64-bit space, and then
    /// emits `spec_setup_actions` in order; the heap cursor is reset.
    pub fn setup(&mut self, config: &Config) -> (r: Result<Vec<VmAction>, ReplayError>)
        requires
            old(self).base_addr == config.base_addr,
        ensures
            final(self).base_addr == old(self).base_addr,
            final(self).packet_addr == old(self).packet_addr,
            final(self).packet_size == old(self).packet_size,
            r is Ok <==> spec_setup_ok(*config),
            r matches Ok(v) ==> actions_view(v@) == spec_setup_actions(*config)
                && final(self).heap_cursor == 0,
            r is Err ==> (r matches Err(e) && e == ReplayError::EmulatorSetupError) && *final(self)
                == *old(self),
    {
        let mut actions: Vec<VmAction> = Vec::new();
        actions.push(VmAction::MapRw(STACK_BASE, STACK_SIZE));
        actions.push(VmAction::WriteReg(CpuReg::Rsp, STACK_BASE + STACK_SIZE - 0x100));
        actions.push(VmAction::MapRw(HEAP_BASE, HEAP_SIZE));
        actions.push(VmAction::MapRw(align_addr(self.base_addr), PAGE_SIZE));
        actions.push(VmAction::WriteMem(self.base_addr, u64_to_le_bytes(0)));
        proof {
            assert(actions_view(actions@) =~= seq![
                VmActionSpec::MapRw(STACK_BASE, STACK_SIZE),
                VmActionSpec::WriteReg(CpuReg::Rsp, (STACK_BASE + STACK_SIZE - 0x100) as u64),
                VmActionSpec::MapRw(HEAP_BASE, HEAP_SIZE),
                VmActionSpec::MapRw(spec_align_addr(config.base_addr), PAGE_SIZE),
                VmActionSpec::WriteMem(config.base_addr, spec_u64_to_le_bytes(0)),
            ]);
        }

        match self.push_section_actions(&mut actions, &config.text) {
            Ok(_) => {},
            Err(e) => {
                return Err(e);
            },
        }
        match self.push_section_actions(&mut actions, &config.data) {
            Ok(_) => {},
            Err(e) => {
                return Err(e);
            },
        }
        match self.push_section_actions(&mut actions, &config.rdata) {
            Ok(_) => {},
            Err(e) => {
                return Err(e);
            },
        }

        let skip_addr: u64 = match self.rva_to_address(config.skip) {
            Some(a) => a,
            None => {
                return Err(ReplayError::EmulatorSetupError);
            },
        };
        let alloc1_addr: u64 = match self.rva_to_address(config.alloc1) {
            Some(a) => a,
            None => {
                return Err(ReplayError::EmulatorSetupError);
            },
        };
        let alloc2_addr: u64 = match self.rva_to_address(config.alloc2) {
            Some(a) => a,
            None => {
                return Err(ReplayError::EmulatorSetupError);
            },
        };
        let ghost before_patches = actions@;
        actions.push(VmAction::WriteMem(skip_addr, skip_patch_bytes()));
        actions.push(VmAction::WriteMem(alloc1_addr, alloc_patch_bytes()));
        actions.push(VmAction::WriteMem(alloc2_addr, alloc_patch_bytes()));

        self.heap_cursor = 0;
        proof {
            assert(actions_view(actions@) =~= actions_view(before_patches) + seq![
                VmActionSpec::WriteMem((config.base_addr + config.skip) as u64, spec_skip_patch()),
                VmActionSpec::WriteMem(
                    (config.base_addr + config.alloc1) as u64,
                    spec_alloc_patch(),
                ),
                VmActionSpec::WriteMem(
                    (config.base_addr + config.alloc2) as u64,
                    spec_alloc_patch(),
                ),
            ]);
            assert(actions_view(actions@) =~= spec_setup_actions(*config));
        }
        Ok(actions)
    }

    /// Plans the mapping and filling of one section.
    fn push_section_actions(&self, actions: &mut Vec<VmAction>, section: &Section) -> (r: Result<
        (),
        ReplayError,
    >)
        ensures
            r is Ok <==> (self.base_addr + section.rva <= u64::MAX && section.size + 0xFFF
                <= u64::MAX),
            r is Ok ==> actions_view(final(actions)@) == actions_view(old(actions)@) + spec_section_actions(self.base_addr, *section),
            r is Err ==> (r matches Err(e) && e == ReplayError::EmulatorSetupError) && (final(
                actions)@ == old(actions)@),
    {
        let addr: u64 = match self.rva_to_address(section.rva) {
            Some(a) => a,
            None => {
                return Err(ReplayError::EmulatorSetupError);
            },
        };
        let mapped: u64 = match align_size(section.size) {
            Some(v) => v,
            None => {
                return Err(ReplayError::EmulatorSetupError);
            },
        };
        actions.push(VmAction::MapRwx(align_addr(addr), mapped));
        actions.push(VmAction::WriteMem(addr, crate::parser::copy_bytes(&section.raw)));
        proof {
            assert(actions_view(final(actions)@) =~= actions_view(old(actions)@) + spec_section_actions(self.base_addr, *section));
        }
        Ok(())
    }

    /// Plans the reset between two decodes: zero the heap cursor and
    /// restore the stack pointer.
    pub fn reset(&mut self) -> (r: Vec<VmAction>)
        ensures
            final(self).base_addr == old(self).base_addr,
            final(self).packet_addr == old(self).packet_addr,
            final(self).packet_size == old(self).packet_size,
            final(self).heap_cursor == 0,
            actions_view(r@) == seq![
                VmActionSpec::WriteMem(old(self).base_addr, spec_u64_to_le_bytes(0)),
                VmActionSpec::WriteReg(CpuReg::Rsp, (STACK_BASE + STACK_SIZE - 0x100) as u64),
            ],
    {
        self.heap_cursor = 0;
        let mut actions: Vec<VmAction> = Vec::new();
        actions.push(VmAction::WriteMem(self.base_addr, u64_to_le_bytes(0)));
        actions.push(VmAction::WriteReg(CpuReg::Rsp, STACK_BASE + STACK_SIZE - 0x100));
        proof {
            assert(actions_view(actions@) =~= seq![
                VmActionSpec::WriteMem(old(self).base_addr, spec_u64_to_le_bytes(0)),
                VmActionSpec::WriteReg(CpuReg::Rsp, (STACK_BASE + STACK_SIZE - 0x100) as u64),
            ]);
        }
        actions
    }

    /// Plans the argument setup of one decode over `payload`.  Three bump
    /// allocations from the current cursor: the packet object of
    /// `PACKET_SIZE` bytes, the payload bytes, and an eight-byte cell
    /// holding the payload address.  The plan writes the payload, the
    /// cell, the final cursor word, and the three argument registers
    /// (packet, cell, payload end) of the calling convention.
    pub fn setup_args(&mut self, payload: &[u8]) -> (r: Result<Vec<VmAction>, ReplayError>)
        ensures
            final(self).base_addr == old(self).base_addr,
            r is Ok <==> old(self).heap_cursor + PACKET_SIZE + payload@.len() + 8 + HEAP_BASE
                <= u64::MAX,
            r is Err ==> (r matches Err(e) && e == ReplayError::EmulatorSetupError) && *final(self)
                == *old(self),
            r matches Ok(v) ==> {
                let p = (HEAP_BASE + old(self).heap_cursor) as u64;
                let q = (p + PACKET_SIZE) as u64;
                let q_ptr = (q + payload@.len()) as u64;
                let cursor2 = (old(self).heap_cursor + PACKET_SIZE + payload@.len() + 8) as u64;
                &&& final(self).packet_addr == p
                &&& final(self).packet_size == PACKET_SIZE
                &&& final(self).heap_cursor == cursor2
                &&& actions_view(v@) == seq![
                    VmActionSpec::WriteMem(q, payload@),
                    VmActionSpec::WriteMem(q_ptr, spec_u64_to_le_bytes(q)),
                    VmActionSpec::WriteMem(old(self).base_addr, spec_u64_to_le_bytes(cursor2)),
                    VmActionSpec::WriteReg(CpuReg::Rcx, p),
                    VmActionSpec::WriteReg(CpuReg::Rdx, q_ptr),
                    VmActionSpec::WriteReg(CpuReg::R8, (q + payload@.len()) as u64),
                ]
            },
    {
        let plen: u64 = payload.len() as u64;
        if self.heap_cursor > u64::MAX - PACKET_SIZE as u64 || self.heap_cursor + PACKET_SIZE
            as u64 > u64::MAX - plen || self.heap_cursor + PACKET_SIZE as u64 + plen > u64::MAX
            - 8 || self.heap_cursor + PACKET_SIZE as u64 + plen + 8 > u64::MAX - HEAP_BASE {
            return Err(ReplayError::EmulatorSetupError);
        }
        let p: u64 = HEAP_BASE + self.heap_cursor;
        let q: u64 = p + PACKET_SIZE as u64;
        let q_ptr: u64 = q + plen;
        let cursor2: u64 = self.heap_cursor + PACKET_SIZE as u64 + plen + 8;

        let mut actions: Vec<VmAction> = Vec::new();
        actions.push(VmAction::WriteMem(q, vstd::slice::slice_to_vec(payload)));
        actions.push(VmAction::WriteMem(q_ptr, u64_to_le_bytes(q)));
        actions.push(VmAction::WriteMem(self.base_addr, u64_to_le_bytes(cursor2)));
        actions.push(VmAction::WriteReg(CpuReg::Rcx, p));
        actions.push(VmAction::WriteReg(CpuReg::Rdx, q_ptr));
        actions.push(VmAction::WriteReg(CpuReg::R8, q + plen));

        self.packet_addr = p;
        self.packet_size = PACKET_SIZE;
        self.heap_cursor = cursor2;
        proof {
            assert(actions_view(actions@) =~= seq![
                VmActionSpec::WriteMem(q, payload@),
                VmActionSpec::WriteMem(q_ptr, spec_u64_to_le_bytes(q)),
                VmActionSpec::WriteMem(old(self).base_addr, spec_u64_to_le_bytes(cursor2)),
                VmActionSpec::WriteReg(CpuReg::Rcx, p),
                VmActionSpec::WriteReg(CpuReg::Rdx, q_ptr),
                VmActionSpec::WriteReg(CpuReg::R8, (q + payload@.len()) as u64),
            ]);
        }
        Ok(actions)
    }
}

/// The write-watch bookkeeping of one ward-spawn decode: counts the
/// multi-byte writes at each packet offset and captures the field values
/// at their configured write indices.
#[derive(Clone)]
pub struct WatchState {
    pub packet_addr: u64,
    pub x_offset: u64,
    pub x_write_count: u32,
    pub y_offset: u64,
    pub y_write_count: u32,
    pub id_offset: u64,
    pub owner_id_offset: u64,
    pub counts: Vec<u64>,
    pub x_bits: u32,
    pub y_bits: u32,
    pub id_val: u32,
    pub owner_val: u32,
}

impl WatchState {
    /// A fresh watch over the packet object at `packet_addr`, configured
    /// from the ward-spawn descriptor.
    pub fn new(packet_addr: u64, w: &WardSpawnDecrypt) -> (r: WatchState)
        ensures
            r.packet_addr == packet_addr,
            r.x_offset == w.x_offset,
            r.x_write_count == w.x_write_count,
            r.y_offset == w.y_offset,
            r.y_write_count == w.y_write_count,
            r.id_offset == w.id_offset,
            r.owner_id_offset == w.owner_id_offset,
            r.counts@ == Seq::new(PACKET_SIZE as nat, |i: int| 0u64),
            r.x_bits == 0 && r.y_bits == 0 && r.id_val == 0 && r.owner_val == 0,
    {
        let counts: Vec<u64> = vec![0u64; PACKET_SIZE];
        proof {
            assert(counts@ =~= Seq::new(PACKET_SIZE as nat, |i: int| 0u64));
        }
        WatchState {
            packet_addr,
            x_offset: w.x_offset,
            x_write_count: w.x_write_count,
            y_offset: w.y_offset,
            y_write_count: w.y_write_count,
            id_offset: w.id_offset,
            owner_id_offset: w.owner_id_offset,
            counts,
            x_bits: 0,
            y_bits: 0,
            id_val: 0,
            owner_val: 0,
        }
    }

    /// Handles one observed memory write.
    ///
    /// Single-byte writes are reported back as unrecorded (`false`) and
    /// leave the state alone: they belong to interior string buffers, not
    /// to tracked fields.  A wider write inside the watched object records
    /// a field when its offset and preceding write count match the
    /// descriptor, then counts every covered offset once.  Writes outside
    /// the watched range change nothing.
    #[verifier::loop_isolation(false)]
    pub fn on_write(&mut self, addr: u64, size: usize, value: u64) -> (r: bool)
        ensures
            final(self).packet_addr == old(self).packet_addr,
            final(self).x_offset == old(self).x_offset,
            final(self).x_write_count == old(self).x_write_count,
            final(self).y_offset == old(self).y_offset,
            final(self).y_write_count == old(self).y_write_count,
            final(self).id_offset == old(self).id_offset,
            final(self).owner_id_offset == old(self).owner_id_offset,
            r == (size != 1),
            size == 1 ==> *final(self) == *old(self),
            size != 1 && (addr < old(self).packet_addr || addr - old(self).packet_addr >= old(
                self,
            ).counts@.len()) ==> *final(self) == *old(self),
            (size != 1 && addr >= old(self).packet_addr && addr - old(self).packet_addr < old(
                self,
            ).counts@.len()) ==> {
                let off = addr - old(self).packet_addr;
                let cnt = old(self).counts@[off as int];
                &&& final(self).x_bits == if off == old(self).x_offset && cnt == old(
                    self,
                ).x_write_count {
                    value as u32
                } else {
                    old(self).x_bits
                }
                &&& final(self).y_bits == if off == old(self).y_offset && cnt == old(
                    self,
                ).y_write_count {
                    value as u32
                } else {
                    old(self).y_bits
                }
                &&& final(self).id_val == if off == old(self).id_offset && cnt == 0 {
                    value as u32
                } else {
                    old(self).id_val
                }
                &&& final(self).owner_val == if off == old(self).owner_id_offset && cnt == 0 {
                    value as u32
                } else {
                    old(self).owner_val
                }
                &&& final(self).counts@.len() == old(self).counts@.len()
                &&& forall|i: int|
                    0 <= i < old(self).counts@.len() ==> final(self).counts@[i] == if off <= i < off
                        + size && old(self).counts@[i] < u64::MAX {
                        (old(self).counts@[i] + 1) as u64
                    } else {
                        old(self).counts@[i]
                    }
            },
    {
        if size == 1 {
            return false;
        }
        if addr < self.packet_addr {
            return true;
        }
        let off64: u64 = addr - self.packet_addr;
        if off64 >= self.counts.len() as u64 {
            return true;
        }
        let off: usize = off64 as usize;
        let cnt: u64 = self.counts[off];

        if off64 == self.x_offset && cnt == self.x_write_count as u64 {
            self.x_bits = value as u32;
        }
        if off64 == self.y_offset && cnt == self.y_write_count as u64 {
            self.y_bits = value as u32;
        }
        if off64 == self.id_offset && cnt == 0 {
            self.id_val = value as u32;
        }
        if off64 == self.owner_id_offset && cnt == 0 {
            self.owner_val = value as u32;
        }

        let len = self.counts.len();
        let end: usize = if size >= len - off {
            len
        } else {
            off + size
        };
        let ghost counts0 = self.counts@;
        let mut new_counts: Vec<u64> = Vec::new();
        let mut i: usize = 0;
        while i < len
            invariant
                i <= len,
                len == counts0.len(),
                self.counts@ == counts0,
                off < len,
                off <= end <= len,
                end == if off + size <= len { off + size } else { len as int },
                new_counts@.len() == i,
                forall|j: int|
                    0 <= j < i ==> new_counts@[j] == if off <= j < end && counts0[j] < u64::MAX {
                        (counts0[j] + 1) as u64
                    } else {
                        counts0[j]
                    },
            decreases len - i,
        {
            let c: u64 = self.counts[i];
            let bump: bool = off <= i && i < end && c < u64::MAX;
            let c2: u64 = if bump {
                c + 1
            } else {
                c
            };
            new_counts.push(c2);
            i = i + 1;
        }
        self.counts = new_counts;
        true
    }
}

/// Builds a ward-spawn packet from one decode's captured fields and the
/// name bytes read from the packet object; the decode fails exactly when
/// the name bytes are not UTF-8.
pub fn ward_packet_from_capture(watch: &WatchState, name_bytes: Vec<u8>, timestamp_ms: u32) -> (r:
    Result<WardSpawnPacket, ReplayError>)
    ensures
        match r {
            Ok(p) => {
                &&& vstd::utf8::valid_utf8(name_bytes@)
                &&& p.name@ == vstd::utf8::decode_utf8(name_bytes@)
                &&& p.timestamp_ms == timestamp_ms
                &&& p.id == watch.id_val
                &&& p.owner_id == watch.owner_val
                &&& p.x == spec_i32_from_f32_bits(watch.x_bits)
                &&& p.y == spec_i32_from_f32_bits(watch.y_bits)
            },
            Err(e) => e == ReplayError::DecodeFailed && !vstd::utf8::valid_utf8(name_bytes@),
        },
{
    let name: String = match string_from_utf8(name_bytes) {
        Some(s) => s,
        None => {
            return Err(ReplayError::DecodeFailed);
        },
    };
    Ok(
        WardSpawnPacket {
            timestamp_ms,
            name,
            id: watch.id_val,
            owner_id: watch.owner_val,
            x: crate::numeric::i32_from_f32_bits(watch.x_bits),
            y: crate::numeric::i32_from_f32_bits(watch.y_bits),
        },
    )
}

} // verus!
