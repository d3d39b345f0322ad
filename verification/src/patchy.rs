//! The patching engine: splicing a relative jump into host code and
//! building the register-saving trampoline it jumps to.
//!
//! Host code pages are modelled as a [`HostRegion`]: a base address and the
//! bytes mapped there. The platform layer outside the library reads real
//! pages into such a region, lets the engine rewrite it, and copies the
//! result back under the right page protections; the byte-level work —
//! displacement arithmetic, jump encoding, the trampoline layout, the NOP
//! fill, and what must be retained to revert — is all here.

use vstd::prelude::*;

verus! {

/// Register through which an injected routine hands its result back to the
/// host. The matching save/restore pair is left out of the trampoline so
/// the value survives into host code.
#[derive(PartialEq, Eq, Structural, Clone, Copy, Debug)]
pub enum ReturnType {
    /// The routine returns nothing; both RAX and XMM0 are saved and
    /// restored around the call.
    Nothing,
    /// The routine returns in RAX; RAX is not saved around the call.
    Rax,
    /// The routine returns in XMM0; XMM0 is not saved around the call.
    Xmm0,
}

/// Why a patch could not be installed.
#[derive(PartialEq, Eq, Structural, Clone, Copy, Debug)]
pub enum PatchError {
    /// No unmapped slot within reach of a 32-bit displacement.
    NoCaveFound,
    /// The host refused to map the trampoline region.
    AllocationFailed,
    /// A required relative jump does not fit in a signed 32-bit field.
    DisplacementOverflow,
}

/// The displacement a 5-byte relative jump at `from` needs in order to land
/// on `to`: the target minus the address of the following instruction.
pub open spec fn displacement(from: u64, to: u64) -> int {
    to - (from + 5)
}

/// Does a displacement fit the signed 32-bit field of a near jump?
pub open spec fn disp_fits(d: int) -> bool {
    -0x80000000 <= d < 0x80000000
}

/// The four little-endian bytes of a 32-bit value.
pub open spec fn le_bytes32(u: u32) -> Seq<u8> {
    seq![
        (u % 0x100) as u8,
        ((u / 0x100) % 0x100) as u8,
        ((u / 0x10000) % 0x100) as u8,
        ((u / 0x1000000) % 0x100) as u8,
    ]
}

/// The eight little-endian bytes of a 64-bit value.
pub open spec fn le_bytes64(u: u64) -> Seq<u8> {
    seq![
        (u % 0x100) as u8,
        ((u / 0x100) % 0x100) as u8,
        ((u / 0x10000) % 0x100) as u8,
        ((u / 0x1000000) % 0x100) as u8,
        ((u / 0x100000000) % 0x100) as u8,
        ((u / 0x10000000000) % 0x100) as u8,
        ((u / 0x1000000000000) % 0x100) as u8,
        ((u / 0x100000000000000) % 0x100) as u8,
    ]
}

/// A signed displacement as its unsigned 32-bit two's-complement value.
pub open spec fn disp_unsigned(d: int) -> u32 {
    (d % 0x100000000) as u32
}

/// A 5-byte near jump: `E9` followed by the little-endian displacement.
pub open spec fn jump_bytes(d: int) -> Seq<u8> {
    seq![0xe9u8] + le_bytes32(disp_unsigned(d))
}

/// PUSH RAX.
pub open spec fn save_rax() -> Seq<u8> {
    seq![0x50u8]
}

/// POP RAX.
pub open spec fn load_rax() -> Seq<u8> {
    seq![0x58u8]
}

/// MOVDQU [RSP], XMM0.
pub open spec fn save_xmm0() -> Seq<u8> {
    seq![0xf3u8, 0x0fu8, 0x7fu8, 0x04u8, 0x24u8]
}

/// MOVDQU XMM0, [RSP].
pub open spec fn load_xmm0() -> Seq<u8> {
    seq![0xf3u8, 0x0fu8, 0x6fu8, 0x04u8, 0x24u8]
}

/// Save RCX, RDX, R8 to R11, reserve 0x60 stack bytes and spill XMM1 to
/// XMM5 into them.
pub open spec fn save_registers() -> Seq<u8> {
    seq![
        0x51u8, 0x52u8, 0x41u8, 0x50u8, 0x41u8, 0x51u8, 0x41u8, 0x52u8, 0x41u8, 0x53u8, 0x48u8,
        0x83u8, 0xecu8, 0x60u8, 0xf3u8, 0x0fu8, 0x7fu8, 0x4cu8, 0x24u8, 0x10u8, 0xf3u8, 0x0fu8,
        0x7fu8, 0x54u8, 0x24u8, 0x20u8, 0xf3u8, 0x0fu8, 0x7fu8, 0x5cu8, 0x24u8, 0x30u8, 0xf3u8,
        0x0fu8, 0x7fu8, 0x64u8, 0x24u8, 0x40u8, 0xf3u8, 0x0fu8, 0x7fu8, 0x6cu8, 0x24u8, 0x50u8,
    ]
}

/// Reload XMM1 to XMM5, release the 0x60 stack bytes and restore R11 to
/// R8, RDX, RCX.
pub open spec fn load_registers() -> Seq<u8> {
    seq![
        0xf3u8, 0x0fu8, 0x6fu8, 0x4cu8, 0x24u8, 0x10u8, 0xf3u8, 0x0fu8, 0x6fu8, 0x54u8, 0x24u8,
        0x20u8, 0xf3u8, 0x0fu8, 0x6fu8, 0x5cu8, 0x24u8, 0x30u8, 0xf3u8, 0x0fu8, 0x6fu8, 0x64u8,
        0x24u8, 0x40u8, 0xf3u8, 0x0fu8, 0x6fu8, 0x6cu8, 0x24u8, 0x50u8, 0x48u8, 0x83u8, 0xc4u8,
        0x60u8, 0x41u8, 0x5bu8, 0x41u8, 0x5au8, 0x41u8, 0x59u8, 0x41u8, 0x58u8, 0x5au8, 0x59u8,
    ]
}

/// The indirect absolute call: a RIP-relative call through the 8-byte
/// pointer placed just behind a 2-byte skip over it.
pub open spec fn call_block(function: u64) -> Seq<u8> {
    seq![0xffu8, 0x15u8, 0x02u8, 0x00u8, 0x00u8, 0x00u8, 0xebu8, 0x08u8] + le_bytes64(function)
}

/// Everything of the trampoline that precedes the trailing jump back.
pub open spec fn trampoline_head(
    original: Seq<u8>,
    preserve: bool,
    ret: ReturnType,
    function: u64,
) -> Seq<u8> {
    (if preserve {
        original
    } else {
        Seq::empty()
    }) + (if ret != ReturnType::Rax {
        save_rax()
    } else {
        Seq::empty()
    }) + save_registers() + (if ret != ReturnType::Xmm0 {
        save_xmm0()
    } else {
        Seq::empty()
    }) + call_block(function) + (if ret != ReturnType::Xmm0 {
        load_xmm0()
    } else {
        Seq::empty()
    }) + load_registers() + (if ret != ReturnType::Rax {
        load_rax()
    } else {
        Seq::empty()
    })
}

/// The complete trampoline: the head followed by the jump back to the
/// instruction after the patched region.
pub open spec fn trampoline_bytes(
    original: Seq<u8>,
    preserve: bool,
    ret: ReturnType,
    function: u64,
    back_disp: int,
) -> Seq<u8> {
    trampoline_head(original, preserve, ret, function) + jump_bytes(back_disp)
}


/// When a call patch preserves the overwritten site, the trampoline starts
/// with an exact copy of those bytes.
pub proof fn lemma_trampoline_preserves_site(
    original: Seq<u8>,
    ret: ReturnType,
    function: u64,
    back_disp: int,
)
    ensures
        trampoline_bytes(original, true, ret, function, back_disp).take(original.len() as int)
            == original,
{
    assert(trampoline_bytes(original, true, ret, function, back_disp).take(
        original.len() as int,
    ) =~= original);
}

/// Compute the 32-bit displacement of a jump at `from` landing on `to`,
/// refusing exactly the distances that do not fit the field.
pub fn jump_displacement(from: u64, to: u64) -> (r: Result<i32, PatchError>)
    ensures
        disp_fits(displacement(from, to)) ==> r == Result::<i32, PatchError>::Ok(
            displacement(from, to) as i32,
        ),
        !disp_fits(displacement(from, to)) ==> r == Result::<i32, PatchError>::Err(
            PatchError::DisplacementOverflow,
        ),
{
    let d: i128 = to as i128 - (from as i128 + 5);
    if -0x80000000i128 <= d && d < 0x80000000i128 {
        Result::Ok(d as i32)
    } else {
        Result::Err(PatchError::DisplacementOverflow)
    }
}

/// Encode a near jump with the given displacement.
pub fn encode_jump(d: i32) -> (r: Vec<u8>)
    ensures
        r@ == jump_bytes(d as int),
        r@.len() == 5,
{
    let u: u32 = if d >= 0 {
        d as u32
    } else {
        (d as i64 + 0x100000000i64) as u32
    };
    proof {
        assert(u == disp_unsigned(d as int));
    }
    let mut r: Vec<u8> = Vec::new();
    r.push(0xe9);
    r.push((u % 0x100) as u8);
    r.push(((u / 0x100) % 0x100) as u8);
    r.push(((u / 0x10000) % 0x100) as u8);
    r.push(((u / 0x1000000) % 0x100) as u8);
    proof {
        assert(r@ =~= jump_bytes(d as int));
    }
    r
}

/// A span of host memory the platform layer has read in: its base address
/// and its bytes.
pub struct HostRegion {
    /// Address of the first byte.
    pub base: u64,
    /// The mapped bytes.
    pub bytes: Vec<u8>,
}

impl HostRegion {
    /// Does the region contain `len` bytes starting at `addr`?
    pub open spec fn holds(self, addr: u64, len: int) -> bool {
        &&& self.base <= addr
        &&& addr - self.base + len <= self.bytes@.len()
    }

    /// The bytes at `addr`.
    pub open spec fn window(self, addr: u64, len: int) -> Seq<u8> {
        self.bytes@.subrange(addr - self.base, addr - self.base + len)
    }

    /// Copy of the `len` bytes at `addr`.
    pub fn read(&self, addr: u64, len: usize) -> (r: Vec<u8>)
        requires
            self.holds(addr, len as int),
        ensures
            r@ == self.window(addr, len as int),
    {
        let n = self.bytes.len();
        proof {
            assert(addr - self.base <= n);
        }
        let off = (addr - self.base) as usize;
        let mut r: Vec<u8> = Vec::new();
        let mut i: usize = 0;
        while i < len
            invariant
                i <= len,
                r@.len() == i,
                self.holds(addr, len as int),
                off == addr - self.base,
                self.bytes@.len() <= usize::MAX,
                forall|j: int| 0 <= j < i ==> r@[j] == self.bytes@[off + j],
            decreases len - i,
        {
            r.push(self.bytes[off + i]);
            i = i + 1;
        }
        proof {
            assert(r@ =~= self.window(addr, len as int));
        }
        r
    }

    /// Overwrite the bytes at `addr` with `data`, leaving the rest alone.
    pub fn write(&mut self, addr: u64, data: &Vec<u8>)
        requires
            old(self).holds(addr, data@.len() as int),
        ensures
            final(self).base == old(self).base,
            final(self).bytes@.len() == old(self).bytes@.len(),
            final(self).window(addr, data@.len() as int) == data@,
            forall|j: int|
                0 <= j < final(self).bytes@.len() && !(addr - old(self).base <= j < addr - old(
                    self,
                ).base + data@.len()) ==> final(self).bytes@[j] == old(self).bytes@[j],
    {
        let n = self.bytes.len();
        proof {
            assert(addr - self.base <= n);
        }
        let off = (addr - self.base) as usize;
        let mut i: usize = 0;
        let ghost base0 = self.base;
        let ghost len0 = self.bytes@.len();
        let ghost olds = self.bytes@;
        while i < data.len()
            invariant
                i <= data@.len(),
                self.base == base0,
                self.bytes@.len() == len0,
                off == addr - base0,
                off + data@.len() <= len0,
                len0 <= usize::MAX,
                forall|j: int| 0 <= j < i ==> self.bytes@[off + j] == data@[j],
                forall|j: int|
                    0 <= j < len0 && !(off <= j < off + data@.len()) ==> self.bytes@[j]
                        == olds[j],
                forall|j: int| off + i <= j < len0 ==> self.bytes@[j] == olds[j],
            decreases data@.len() - i,
        {
            self.bytes[off + i] = data[i];
            i = i + 1;
        }
        proof {
            assert(self.window(addr, data@.len() as int) =~= data@);
        }
    }
}

/// A record of one installed patch: how many bytes were overwritten at the
/// site, a copy of them, and the trampoline, when one was built.
pub struct Patch {
    /// Bytes overwritten at the site.
    pub size: usize,
    /// The site's original bytes, retained to support revert.
    pub overwritten: Vec<u8>,
    /// The trampoline placed in the cave, for call patches.
    pub trampoline: Option<Trampoline>,
}

/// An executable trampoline: where it goes and what it holds.
pub struct Trampoline {
    /// Address of the cave the trampoline occupies.
    pub base: u64,
    /// Its bytes.
    pub bytes: Vec<u8>,
}

impl Patch {
    /// Overwrite `data.len()` bytes at `address` with `data`, retaining the
    /// old bytes. No trampoline is involved.
    pub fn overwrite(region: &mut HostRegion, address: u64, data: &Vec<u8>) -> (p: Patch)
        requires
            old(region).holds(address, data@.len() as int),
        ensures
            final(region).base == old(region).base,
            final(region).bytes@.len() == old(region).bytes@.len(),
            final(region).window(address, data@.len() as int) == data@,
            forall|j: int|
                0 <= j < final(region).bytes@.len() && !(address - old(region).base <= j < address
                    - old(region).base + data@.len()) ==> final(region).bytes@[j] == old(
                    region,
                ).bytes@[j],
            p.size == data@.len(),
            p.overwritten@ == old(region).window(address, data@.len() as int),
            p.trampoline is None,
    {
        let overwritten = region.read(address, data.len());
        region.write(address, data);
        Patch { size: data.len(), overwritten, trampoline: Option::None }
    }

    /// Install a call patch: splice a near jump from `address` into the
    /// cave at `cave_base`, pad the rest of the `size`-byte site with NOPs,
    /// and build the trampoline that saves the volatile registers, calls
    /// `function` and jumps back to `address + size`. Fails exactly when
    /// one of the two relative jumps cannot reach.
    pub fn patch_call(
        region: &mut HostRegion,
        address: u64,
        function: u64,
        size: usize,
        save_overwritten: bool,
        allow_return: ReturnType,
        cave_base: u64,
    ) -> (r: Result<Patch, PatchError>)
        requires
            5 <= size,
            old(region).holds(address, size as int),
            address + size <= u64::MAX,
            cave_base + size + 121 <= u64::MAX,
        ensures
            ({
                let head = trampoline_head(
                    (if save_overwritten {
                        old(region).window(address, size as int)
                    } else {
                        Seq::empty()
                    }),
                    save_overwritten,
                    allow_return,
                    function,
                );
                let back = displacement((cave_base + head.len()) as u64, (address + size) as u64);
                let fwd = displacement(address, cave_base);
                &&& (disp_fits(fwd) && disp_fits(back) <==> r is Ok)
                &&& (r matches Result::Err(e) ==> e == PatchError::DisplacementOverflow)
                &&& match r {
                    Result::Ok(p) => {
                        &&& final(region).base == old(region).base
                        &&& final(region).bytes@.len() == old(region).bytes@.len()
                        &&& final(region).window(address, 5) == jump_bytes(fwd)
                        &&& (forall|j: int|
                            5 <= j < size ==> final(region).window(address, size as int)[j]
                                == 0x90u8)
                        &&& (forall|j: int|
                            0 <= j < final(region).bytes@.len() && !(address - old(region).base
                                <= j < address - old(region).base + size) ==> final(region).bytes@[j]
                                == old(region).bytes@[j])
                        &&& p.size == size
                        &&& p.overwritten@ == old(region).window(address, size as int)
                        &&& p.trampoline matches Option::Some(t) && t.base == cave_base
                            && t.bytes@ == trampoline_bytes(
                            (if save_overwritten {
                                old(region).window(address, size as int)
                            } else {
                                Seq::empty()
                            }),
                            save_overwritten,
                            allow_return,
                            function,
                            back,
                        )
                    },
                    Result::Err(_) => *final(region) == *old(region),
                }
            }),
    {
        let overwritten = region.read(address, size);
        let head = build_head(&overwritten, save_overwritten, allow_return, function);
        proof {
            assert(save_registers().len() == 44);
            assert(load_registers().len() == 44);
            assert(save_xmm0().len() == 5);
            assert(load_xmm0().len() == 5);
            assert(save_rax().len() == 1);
            assert(load_rax().len() == 1);
            assert(call_block(function).len() == 16);
            assert(head@.len() <= size + 116);
        }
        let fwd = jump_displacement(address, cave_base);
        let jmp_at: u64 = cave_base + head.len() as u64;
        let back = jump_displacement(jmp_at, address + size as u64);
        match (fwd, back) {
            (Result::Ok(f), Result::Ok(b)) => {
                let mut site = encode_jump(f);
                let mut i: usize = 5;
                while i < size
                    invariant
                        5 <= i <= size,
                        site@.len() == i,
                        forall|j: int| 0 <= j < 5 ==> site@[j] == jump_bytes(f as int)[j],
                        forall|j: int| 5 <= j < i ==> site@[j] == 0x90u8,
                    decreases size - i,
                {
                    site.push(0x90);
                    i = i + 1;
                }
                region.write(address, &site);
                let mut tramp = head;
                let mut jback = encode_jump(b);
                tramp.append(&mut jback);
                proof {
                    assert(region.window(address, size as int) == site@);
                    assert(region.window(address, 5) =~= site@.subrange(0, 5));
                    assert(site@.subrange(0, 5) =~= jump_bytes(f as int));
                }
                Result::Ok(
                    Patch {
                        size,
                        overwritten,
                        trampoline: Option::Some(Trampoline { base: cave_base, bytes: tramp }),
                    },
                )
            },
            _ => Result::Err(PatchError::DisplacementOverflow),
        }
    }
}

/// Build the head of the trampoline: optional copy of the site, register
/// saves, the indirect call, register restores.
fn build_head(original: &Vec<u8>, preserve: bool, ret: ReturnType, function: u64) -> (r: Vec<u8>)
    ensures
        r@ == trampoline_head(original@, preserve, ret, function),
{
    let mut r: Vec<u8> = Vec::new();
    if preserve {
        let mut c = copy_bytes(original);
        r.append(&mut c);
    }
    if !matches!(ret, ReturnType::Rax) {
        r.push(0x50);
    }
    let mut sr = save_registers_vec();
    r.append(&mut sr);
    if !matches!(ret, ReturnType::Xmm0) {
        push_save_xmm0(&mut r);
    }
    push_call_block(&mut r, function);
    if !matches!(ret, ReturnType::Xmm0) {
        push_load_xmm0(&mut r);
    }
    let mut lr = load_registers_vec();
    r.append(&mut lr);
    if !matches!(ret, ReturnType::Rax) {
        r.push(0x58);
    }
    proof {
        assert(r@ =~= trampoline_head(original@, preserve, ret, function));
    }
    r
}

/// A plain copy of a byte vector.
fn copy_bytes(v: &Vec<u8>) -> (r: Vec<u8>)
    ensures
        r@ == v@,
{
    let mut r: Vec<u8> = Vec::new();
    let mut i: usize = 0;
    while i < v.len()
        invariant
            i <= v@.len(),
            r@.len() == i,
            forall|j: int| 0 <= j < i ==> r@[j] == v@[j],
        decreases v@.len() - i,
    {
        r.push(v[i]);
        i = i + 1;
    }
    proof {
        assert(r@ =~= v@);
    }
    r
}

/// The save block as bytes.
fn save_registers_vec() -> (r: Vec<u8>)
    ensures
        r@ == save_registers(),
{
    let r = vec![
        0x51u8, 0x52, 0x41, 0x50, 0x41, 0x51, 0x41, 0x52, 0x41, 0x53, 0x48, 0x83, 0xec, 0x60,
        0xf3, 0x0f, 0x7f, 0x4c, 0x24, 0x10, 0xf3, 0x0f, 0x7f, 0x54, 0x24, 0x20, 0xf3, 0x0f, 0x7f,
        0x5c, 0x24, 0x30, 0xf3, 0x0f, 0x7f, 0x64, 0x24, 0x40, 0xf3, 0x0f, 0x7f, 0x6c, 0x24, 0x50,
    ];
    proof {
        assert(r@ =~= save_registers());
    }
    r
}

/// The restore block as bytes.
fn load_registers_vec() -> (r: Vec<u8>)
    ensures
        r@ == load_registers(),
{
    let r = vec![
        0xf3u8, 0x0f, 0x6f, 0x4c, 0x24, 0x10, 0xf3, 0x0f, 0x6f, 0x54, 0x24, 0x20, 0xf3, 0x0f,
        0x6f, 0x5c, 0x24, 0x30, 0xf3, 0x0f, 0x6f, 0x64, 0x24, 0x40, 0xf3, 0x0f, 0x6f, 0x6c, 0x24,
        0x50, 0x48, 0x83, 0xc4, 0x60, 0x41, 0x5b, 0x41, 0x5a, 0x41, 0x59, 0x41, 0x58, 0x5a, 0x59,
    ];
    proof {
        assert(r@ =~= load_registers());
    }
    r
}

/// Append the XMM0 save.
fn push_save_xmm0(r: &mut Vec<u8>)
    ensures
        final(r)@ == old(r)@ + save_xmm0(),
{
    r.push(0xf3);
    r.push(0x0f);
    r.push(0x7f);
    r.push(0x04);
    r.push(0x24);
    proof {
        assert(final(r)@ =~= old(r)@ + save_xmm0());
    }
}

/// Append the XMM0 restore.
fn push_load_xmm0(r: &mut Vec<u8>)
    ensures
        final(r)@ == old(r)@ + load_xmm0(),
{
    r.push(0xf3);
    r.push(0x0f);
    r.push(0x6f);
    r.push(0x04);
    r.push(0x24);
    proof {
        assert(final(r)@ =~= old(r)@ + load_xmm0());
    }
}

/// Append the indirect call: the call-and-skip bytes followed by the raw
/// 64-bit function pointer.
fn push_call_block(r: &mut Vec<u8>, function: u64)
    ensures
        final(r)@ == old(r)@ + call_block(function),
{
    r.push(0xff);
    r.push(0x15);
    r.push(0x02);
    r.push(0x00);
    r.push(0x00);
    r.push(0x00);
    r.push(0xeb);
    r.push(0x08);
    r.push((function % 0x100) as u8);
    r.push(((function / 0x100) % 0x100) as u8);
    r.push(((function / 0x10000) % 0x100) as u8);
    r.push(((function / 0x1000000) % 0x100) as u8);
    r.push(((function / 0x100000000) % 0x100) as u8);
    r.push(((function / 0x10000000000) % 0x100) as u8);
    r.push(((function / 0x1000000000000) % 0x100) as u8);
    r.push(((function / 0x100000000000000) % 0x100) as u8);
    proof {
        assert(final(r)@ =~= old(r)@ + call_block(function));
    }
}

/// Search the 4 GiB window around `address` for an unmapped slot: step
/// from just above `address - 2 GiB` in units of the allocation
/// granularity and return the first stepping point that no mapped area
/// covers. `areas` are the mapped spans of the process, each given as
/// its start and its end (one past the last byte).
pub fn search_memory_cave(address: u64, granularity: u64, areas: &Vec<(u64, u64)>) -> (r: Option<
    u64,
>)
    requires
        1 <= granularity <= 0x80000000,
        address >= 0x80000000,
        address + 0x80000000 <= u64::MAX,
    ensures
        ({
            let lower = address - 0x80000000 + granularity;
            let upper = address + 0x80000000 - granularity;
            match r {
                Some(a) => {
                    &&& lower <= a < upper
                    &&& (a - lower) % granularity as int == 0
                    &&& free_at(a, areas@)
                    &&& forall|k: int|
                        0 <= k < (a - lower) / granularity as int ==> !#[trigger] free_at(
                            (lower + k * granularity) as u64,
                            areas@,
                        )
                },
                None => forall|k: int|
                    lower + k * granularity < upper && k >= 0 ==> !#[trigger] free_at(
                        (lower + k * granularity) as u64,
                        areas@,
                    ),
            }
        }),
{
    let lower = address - 0x80000000 + granularity;
    let upper = address + 0x80000000 - granularity;
    let mut a = lower;
    let ghost g = granularity as int;
    let ghost mut steps: int = 0;
    while a < upper
        invariant
            1 <= granularity <= 0x80000000,
            g == granularity as int,
            lower == address - 0x80000000 + granularity,
            upper == address + 0x80000000 - granularity,
            address >= 0x80000000,
            address + 0x80000000 <= u64::MAX,
            a == lower + steps * g,
            steps >= 0,
            lower <= a,
            a <= upper + g,
            forall|k: int| 0 <= k < steps ==> !#[trigger] free_at((lower + k * g) as u64, areas@),
        decreases upper + g - a,
    {
        if is_free(a, areas) {
            proof {
                assert((a - lower) % g == 0) by (nonlinear_arith)
                    requires
                        a == lower + steps * g,
                        g >= 1,
                        steps >= 0,
                ;
                assert((a - lower) / g == steps) by (nonlinear_arith)
                    requires
                        a == lower + steps * g,
                        g >= 1,
                        steps >= 0,
                ;
            }
            return Option::Some(a);
        }
        proof {
            assert((steps + 1) * g == steps * g + g) by (nonlinear_arith);
            steps = steps + 1;
        }
        a = a + granularity;
    }
    proof {
        assert forall|k: int| lower + k * g < upper && k >= 0 implies !#[trigger] free_at(
            (lower + k * g) as u64,
            areas@,
        ) by {
            if k >= steps {
                assert(k * g >= steps * g) by (nonlinear_arith)
                    requires
                        k >= steps as int,
                        g >= 1,
                ;
            }
        }
    }
    Option::None
}

/// Is `a` outside every mapped area?
pub open spec fn free_at(a: u64, areas: Seq<(u64, u64)>) -> bool {
    forall|i: int| 0 <= i < areas.len() ==> !(#[trigger] areas[i].0 <= a < areas[i].1)
}

/// Executable check of [`free_at`].
fn is_free(a: u64, areas: &Vec<(u64, u64)>) -> (r: bool)
    ensures
        r == free_at(a, areas@),
{
    let mut i: usize = 0;
    while i < areas.len()
        invariant
            i <= areas@.len(),
            forall|j: int| 0 <= j < i ==> !(#[trigger] areas@[j].0 <= a < areas@[j].1),
        decreases areas@.len() - i,
    {
        let (s, e) = (areas[i].0, areas[i].1);
        if s <= a && a < e {
            return false;
        }
        i = i + 1;
    }
    true
}

} // verus!
