//! Linear memory: a byte buffer of 64 KiB pages with little-endian typed
//! access that reports an access outside the buffer.

use vstd::prelude::*;
use crate::error::OOB_MEMORY_ACCESS;
use crate::value::{signed32, signed64, u32_to_i32, u64_to_i64};

verus! {

/// The largest number of pages a memory can have: 4 GiB.
pub const MAX_PAGES: u32 = 65536;

/// The size of a page in bytes.
pub const PAGE_SIZE: u32 = 65536;

/// The 16-bit little-endian number at `a`.
pub open spec fn le16(s: Seq<u8>, a: int) -> int {
    s[a] + 0x100 * s[a + 1]
}

/// The 32-bit little-endian number at `a`.
pub open spec fn le32(s: Seq<u8>, a: int) -> int {
    le16(s, a) + 0x1_0000 * le16(s, a + 2)
}

/// The 64-bit little-endian number at `a`.
pub open spec fn le64(s: Seq<u8>, a: int) -> int {
    le32(s, a) + 0x1_0000_0000 * le32(s, a + 4)
}

/// `s` with the byte `v` at `a`.
pub open spec fn put8(s: Seq<u8>, a: int, v: int) -> Seq<u8> {
    s.update(a, v as u8)
}

/// `s` with the 16-bit number `v` at `a`, little-endian.
pub open spec fn put16(s: Seq<u8>, a: int, v: int) -> Seq<u8> {
    put8(put8(s, a, v % 0x100), a + 1, v / 0x100)
}

/// `s` with the 32-bit number `v` at `a`, little-endian.
pub open spec fn put32(s: Seq<u8>, a: int, v: int) -> Seq<u8> {
    put16(put16(s, a, v % 0x1_0000), a + 2, v / 0x1_0000)
}

/// `s` with the 64-bit number `v` at `a`, little-endian.
pub open spec fn put64(s: Seq<u8>, a: int, v: int) -> Seq<u8> {
    put32(put32(s, a, v % 0x1_0000_0000), a + 4, v / 0x1_0000_0000)
}

/// The signed 8-bit integer with the bit pattern of `v`.
pub open spec fn signed8(v: int) -> int {
    if v >= 0x80 {
        v - 0x100
    } else {
        v
    }
}

/// The signed 16-bit integer with the bit pattern of `v`.
pub open spec fn signed16(v: int) -> int {
    if v >= 0x8000 {
        v - 0x1_0000
    } else {
        v
    }
}

/// Whether an access of `width` bytes at `ptr + offset` lies inside a
/// buffer of `len` bytes.
pub open spec fn access_ok(len: nat, ptr: u32, offset: u32, width: nat) -> bool {
    ptr + offset + width <= len
}

/// A store followed by a load at the same place and width gives back the
/// stored value, and a store changes nothing but the bytes it covers.
pub proof fn lemma_store_load(s: Seq<u8>, a: int, v: int)
    requires
        0 <= a,
        0 <= v,
    ensures
        a + 1 <= s.len() && v < 0x100 ==> put8(s, a, v)[a] == v && put8(s, a, v).len() == s.len(),
        a + 2 <= s.len() && v < 0x1_0000 ==> le16(put16(s, a, v), a) == v && put16(s, a, v).len()
            == s.len(),
        a + 4 <= s.len() && v < 0x1_0000_0000 ==> le32(put32(s, a, v), a) == v && put32(
            s,
            a,
            v,
        ).len() == s.len(),
        a + 8 <= s.len() && v < 0x1_0000_0000_0000_0000 ==> le64(put64(s, a, v), a) == v && put64(
            s,
            a,
            v,
        ).len() == s.len(),
        forall|k: int|
            0 <= k < s.len() && k != a && a + 1 <= s.len() ==> #[trigger] put8(s, a, v)[k] == s[k],
        forall|k: int|
            0 <= k < s.len() && !(a <= k < a + 2) && a + 2 <= s.len() ==> #[trigger] put16(
                s,
                a,
                v,
            )[k] == s[k],
        forall|k: int|
            0 <= k < s.len() && !(a <= k < a + 4) && a + 4 <= s.len() ==> #[trigger] put32(
                s,
                a,
                v,
            )[k] == s[k],
        forall|k: int|
            0 <= k < s.len() && !(a <= k < a + 8) && a + 8 <= s.len() ==> #[trigger] put64(
                s,
                a,
                v,
            )[k] == s[k],
{
    if a + 2 <= s.len() {
        lemma_put16(s, a, v);
    }
    if a + 4 <= s.len() {
        lemma_put32(s, a, v);
    }
    if a + 8 <= s.len() {
        lemma_put64(s, a, v);
    }
}

proof fn lemma_put16(s: Seq<u8>, a: int, v: int)
    requires
        0 <= a,
        a + 2 <= s.len(),
    ensures
        put16(s, a, v).len() == s.len(),
        0 <= v < 0x1_0000 ==> le16(put16(s, a, v), a) == v,
        forall|k: int| 0 <= k < s.len() && !(a <= k < a + 2) ==> put16(s, a, v)[k] == s[k],
{
}

proof fn lemma_put32(s: Seq<u8>, a: int, v: int)
    requires
        0 <= a,
        a + 4 <= s.len(),
    ensures
        put32(s, a, v).len() == s.len(),
        0 <= v < 0x1_0000_0000 ==> le32(put32(s, a, v), a) == v,
        forall|k: int| 0 <= k < s.len() && !(a <= k < a + 4) ==> put32(s, a, v)[k] == s[k],
{
    let s1 = put16(s, a, v % 0x1_0000);
    lemma_put16(s, a, v % 0x1_0000);
    lemma_put16(s1, a + 2, v / 0x1_0000);
    assert(le16(put32(s, a, v), a) == le16(s1, a));
}

proof fn lemma_put64(s: Seq<u8>, a: int, v: int)
    requires
        0 <= a,
        a + 8 <= s.len(),
    ensures
        put64(s, a, v).len() == s.len(),
        0 <= v < 0x1_0000_0000_0000_0000 ==> le64(put64(s, a, v), a) == v,
        forall|k: int| 0 <= k < s.len() && !(a <= k < a + 8) ==> put64(s, a, v)[k] == s[k],
{
    let s1 = put32(s, a, v % 0x1_0000_0000);
    lemma_put32(s, a, v % 0x1_0000_0000);
    lemma_put32(s1, a + 4, v / 0x1_0000_0000);
    assert(le32(put64(s, a, v), a) == le32(s1, a));
}

/// A linear memory.
pub struct WasmMemory {
    data: Vec<u8>,
    current: u32,
    maximum: u32,
}

impl View for WasmMemory {
    type V = Seq<u8>;

    /// The bytes of the memory.
    closed spec fn view(&self) -> Seq<u8> {
        self.data@
    }
}

impl WasmMemory {
    /// The size in pages.
    pub closed spec fn spec_size(&self) -> u32 {
        self.current
    }

    /// The largest size in pages that the memory may grow to.
    pub closed spec fn spec_max(&self) -> u32 {
        self.maximum
    }

    /// The buffer holds exactly the pages of the memory.
    pub closed spec fn wf(&self) -> bool {
        self.data@.len() == self.current as nat * 65536
    }

    /// A well-formed memory holds 65536 bytes for each page.
    pub proof fn lemma_wf(&self)
        requires
            self.wf(),
        ensures
            self@.len() == self.spec_size() as nat * 65536,
    {
    }

    /// A zeroed memory of `initial` pages that may grow to `maximum`
    /// pages, or to `MAX_PAGES` if that is less.
    pub fn new(initial: u32, maximum: u32) -> (m: Self)
        requires
            initial as nat * 65536 <= usize::MAX,
        ensures
            m.wf(),
            m.spec_size() == initial,
            m.spec_max() == if maximum < MAX_PAGES { maximum } else { MAX_PAGES },
            m@ == Seq::new(initial as nat * 65536, |i: int| 0u8),
    {
        let maximum: u32 = if maximum < MAX_PAGES { maximum } else { MAX_PAGES };
        let n: usize = (initial as usize) * 65536usize;
        let data: Vec<u8> = vec![0u8; n];
        assert(data@ =~= Seq::new(initial as nat * 65536, |i: int| 0u8));
        Self { data, current: initial, maximum }
    }

    /// The size in pages.
    #[verifier::when_used_as_spec(spec_size)]
    pub fn size(&self) -> (r: u32)
        ensures
            r == self.spec_size(),
    {
        self.current
    }

    /// The size in bytes.
    pub fn byte_len(&self) -> (n: usize)
        ensures
            n == self@.len(),
    {
        self.data.len()
    }

    /// The largest size in pages that the memory may grow to.
    #[verifier::when_used_as_spec(spec_max)]
    pub fn max(&self) -> (r: u32)
        ensures
            r == self.spec_max(),
    {
        self.maximum
    }

    /// Whether growing by `delta` pages succeeds: the new size stays
    /// within the maximum and within what the machine can address.
    pub open spec fn can_grow(&self, delta: u32) -> bool {
        self.spec_size() + delta <= self.spec_max() && (self.spec_size() + delta) * 65536
            <= usize::MAX
    }

    /// Grows the memory by `delta` zeroed pages and returns the size
    /// before, or returns `u32::MAX` and changes nothing when the memory
    /// cannot grow by that much.  Growing by zero always succeeds.
    pub fn grow(&mut self, delta: u32) -> (r: u32)
        requires
            old(self).wf(),
        ensures
            final(self).wf(),
            final(self).spec_max() == old(self).spec_max(),
            delta == 0 ==> r == old(self).spec_size() && final(self)@ == old(self)@ && final(self).spec_size() == old(self).spec_size(),
            delta != 0 && old(self).can_grow(delta) ==> {
                &&& r == old(self).spec_size()
                &&& final(self).spec_size() == old(self).spec_size() + delta
                &&& final(self)@ == old(self)@ + Seq::new(delta as nat * 65536, |i: int| 0u8)
            },
            delta != 0 && !old(self).can_grow(delta) ==> {
                &&& r == u32::MAX
                &&& final(self)@ == old(self)@
                &&& final(self).spec_size() == old(self).spec_size()
            },
    {
        if delta == 0 {
            return self.current;
        }
        let room: u32 = if self.maximum >= self.current {
            self.maximum - self.current
        } else {
            0
        };
        if delta > room {
            return u32::MAX;
        }
        let pages: u32 = self.current + delta;
        let bytes: u64 = (pages as u64) * 65536u64;
        if bytes > usize::MAX as u64 {
            return u32::MAX;
        }
        let old_pages: u32 = self.current;
        self.current = pages;
        self.data.resize(bytes as usize, 0u8);
        assert(self.data@ =~= old(self).data@ + Seq::new(delta as nat * 65536, |i: int| 0u8));
        old_pages
    }

    /// The effective address of an access of `width` bytes, when it lies
    /// inside the buffer.
    fn locate(&self, ptr: u32, offset: u32, width: usize) -> (r: Option<usize>)
        requires
            width <= 8,
        ensures
            access_ok(self@.len(), ptr, offset, width as nat) ==> r == Some((ptr + offset) as usize),
            !access_ok(self@.len(), ptr, offset, width as nat) ==> r is None,
    {
        let addr: u64 = ptr as u64 + offset as u64;
        let len: usize = self.data.len();
        if len < width || addr > (len - width) as u64 {
            return None;
        }
        Some(addr as usize)
    }

    fn get8(&self, a: usize) -> (r: u8)
        requires
            a + 1 <= self.data.len(),
        ensures
            r == self@[a as int],
    {
        self.data[a]
    }

    fn get16(&self, a: usize) -> (r: u16)
        requires
            a + 2 <= self.data.len(),
        ensures
            r == le16(self@, a as int),
    {
        self.data[a] as u16 + (self.data[a + 1] as u16) * 0x100
    }

    fn get32(&self, a: usize) -> (r: u32)
        requires
            a + 4 <= self.data.len(),
        ensures
            r == le32(self@, a as int),
    {
        self.get16(a) as u32 + (self.get16(a + 2) as u32) * 0x1_0000
    }

    fn get64(&self, a: usize) -> (r: u64)
        requires
            a + 8 <= self.data.len(),
        ensures
            r == le64(self@, a as int),
    {
        self.get32(a) as u64 + (self.get32(a + 4) as u64) * 0x1_0000_0000
    }

    fn set8(&mut self, a: usize, v: u8)
        requires
            a + 1 <= old(self).data.len(),
        ensures
            final(self)@ == put8(old(self)@, a as int, v as int),
            final(self).spec_size() == old(self).spec_size(),
            final(self).spec_max() == old(self).spec_max(),
    {
        self.data[a] = v;
    }

    fn set16(&mut self, a: usize, v: u16)
        requires
            a + 2 <= old(self).data.len(),
        ensures
            final(self)@ == put16(old(self)@, a as int, v as int),
            final(self).spec_size() == old(self).spec_size(),
            final(self).spec_max() == old(self).spec_max(),
    {
        self.set8(a, (v % 0x100) as u8);
        self.set8(a + 1, (v / 0x100) as u8);
    }

    fn set32(&mut self, a: usize, v: u32)
        requires
            a + 4 <= old(self).data.len(),
        ensures
            final(self)@ == put32(old(self)@, a as int, v as int),
            final(self).spec_size() == old(self).spec_size(),
            final(self).spec_max() == old(self).spec_max(),
    {
        self.set16(a, (v % 0x1_0000) as u16);
        proof {
            lemma_put16(old(self)@, a as int, v as int % 0x1_0000);
        }
        self.set16(a + 2, (v / 0x1_0000) as u16);
    }

    fn set64(&mut self, a: usize, v: u64)
        requires
            a + 8 <= old(self).data.len(),
        ensures
            final(self)@ == put64(old(self)@, a as int, v as int),
            final(self).spec_size() == old(self).spec_size(),
            final(self).spec_max() == old(self).spec_max(),
    {
        self.set32(a, (v % 0x1_0000_0000) as u32);
        proof {
            lemma_put32(old(self)@, a as int, v as int % 0x1_0000_0000);
        }
        self.set32(a + 4, (v / 0x1_0000_0000) as u32);
    }
}

impl WasmMemory {
    /// The byte at `ptr + offset`.
    pub fn load_u8(&self, ptr: u32, offset: u32) -> (r: Result<u8, &'static str>)
        requires
            self.wf(),
        ensures
            access_ok(self@.len(), ptr, offset, 1) ==> r == Ok::<u8, &'static str>(
                self@[ptr + offset],
            ),
            !access_ok(self@.len(), ptr, offset, 1) ==> r == Err::<u8, &'static str>(
                OOB_MEMORY_ACCESS,
            ),
    {
        match self.locate(ptr, offset, 1) {
            None => Err(OOB_MEMORY_ACCESS),
            Some(a) => Ok(self.get8(a)),
        }
    }

    /// The 16-bit little-endian number at `ptr + offset`.
    pub fn load_u16(&self, ptr: u32, offset: u32) -> (r: Result<u16, &'static str>)
        requires
            self.wf(),
        ensures
            access_ok(self@.len(), ptr, offset, 2) ==> r == Ok::<u16, &'static str>(
                (le16(self@, ptr + offset)) as u16,
            ),
            !access_ok(self@.len(), ptr, offset, 2) ==> r == Err::<u16, &'static str>(
                OOB_MEMORY_ACCESS,
            ),
    {
        match self.locate(ptr, offset, 2) {
            None => Err(OOB_MEMORY_ACCESS),
            Some(a) => Ok(self.get16(a)),
        }
    }

    /// The 32-bit little-endian number at `ptr + offset`.
    pub fn load_u32(&self, ptr: u32, offset: u32) -> (r: Result<u32, &'static str>)
        requires
            self.wf(),
        ensures
            access_ok(self@.len(), ptr, offset, 4) ==> r == Ok::<u32, &'static str>(
                (le32(self@, ptr + offset)) as u32,
            ),
            !access_ok(self@.len(), ptr, offset, 4) ==> r == Err::<u32, &'static str>(
                OOB_MEMORY_ACCESS,
            ),
    {
        match self.locate(ptr, offset, 4) {
            None => Err(OOB_MEMORY_ACCESS),
            Some(a) => Ok(self.get32(a)),
        }
    }

    /// The 64-bit little-endian number at `ptr + offset`.
    pub fn load_u64(&self, ptr: u32, offset: u32) -> (r: Result<u64, &'static str>)
        requires
            self.wf(),
        ensures
            access_ok(self@.len(), ptr, offset, 8) ==> r == Ok::<u64, &'static str>(
                (le64(self@, ptr + offset)) as u64,
            ),
            !access_ok(self@.len(), ptr, offset, 8) ==> r == Err::<u64, &'static str>(
                OOB_MEMORY_ACCESS,
            ),
    {
        match self.locate(ptr, offset, 8) {
            None => Err(OOB_MEMORY_ACCESS),
            Some(a) => Ok(self.get64(a)),
        }
    }

    /// The byte at `ptr + offset`, read as signed.
    pub fn load_i8(&self, ptr: u32, offset: u32) -> (r: Result<i8, &'static str>)
        requires
            self.wf(),
        ensures
            access_ok(self@.len(), ptr, offset, 1) ==> r == Ok::<i8, &'static str>(
                (signed8(self@[ptr + offset] as int)) as i8,
            ),
            !access_ok(self@.len(), ptr, offset, 1) ==> r == Err::<i8, &'static str>(
                OOB_MEMORY_ACCESS,
            ),
    {
        match self.locate(ptr, offset, 1) {
            None => Err(OOB_MEMORY_ACCESS),
            Some(a) => Ok(byte_to_i8(self.get8(a))),
        }
    }

    /// The 16-bit number at `ptr + offset`, read as signed.
    pub fn load_i16(&self, ptr: u32, offset: u32) -> (r: Result<i16, &'static str>)
        requires
            self.wf(),
        ensures
            access_ok(self@.len(), ptr, offset, 2) ==> r == Ok::<i16, &'static str>(
                (signed16(le16(self@, ptr + offset))) as i16,
            ),
            !access_ok(self@.len(), ptr, offset, 2) ==> r == Err::<i16, &'static str>(
                OOB_MEMORY_ACCESS,
            ),
    {
        match self.locate(ptr, offset, 2) {
            None => Err(OOB_MEMORY_ACCESS),
            Some(a) => Ok(word_to_i16(self.get16(a))),
        }
    }

    /// The 32-bit number at `ptr + offset`, read as signed.
    pub fn load_i32(&self, ptr: u32, offset: u32) -> (r: Result<i32, &'static str>)
        requires
            self.wf(),
        ensures
            access_ok(self@.len(), ptr, offset, 4) ==> r == Ok::<i32, &'static str>(
                (signed32(le32(self@, ptr + offset) as u32)) as i32,
            ),
            !access_ok(self@.len(), ptr, offset, 4) ==> r == Err::<i32, &'static str>(
                OOB_MEMORY_ACCESS,
            ),
    {
        match self.locate(ptr, offset, 4) {
            None => Err(OOB_MEMORY_ACCESS),
            Some(a) => Ok(u32_to_i32(self.get32(a))),
        }
    }

    /// The 64-bit number at `ptr + offset`, read as signed.
    pub fn load_i64(&self, ptr: u32, offset: u32) -> (r: Result<i64, &'static str>)
        requires
            self.wf(),
        ensures
            access_ok(self@.len(), ptr, offset, 8) ==> r == Ok::<i64, &'static str>(
                (signed64(le64(self@, ptr + offset) as u64)) as i64,
            ),
            !access_ok(self@.len(), ptr, offset, 8) ==> r == Err::<i64, &'static str>(
                OOB_MEMORY_ACCESS,
            ),
    {
        match self.locate(ptr, offset, 8) {
            None => Err(OOB_MEMORY_ACCESS),
            Some(a) => Ok(u64_to_i64(self.get64(a))),
        }
    }

    /// Writes a byte at `ptr + offset`.
    pub fn store_u8(&mut self, ptr: u32, offset: u32, v: u8) -> (r: Result<(), &'static str>)
        requires
            old(self).wf(),
        ensures
            final(self).wf(),
            final(self).spec_size() == old(self).spec_size(),
            final(self).spec_max() == old(self).spec_max(),
            access_ok(old(self)@.len(), ptr, offset, 1) ==> r == Ok::<(), &'static str>(())
                && final(self)@ == put8(old(self)@, ptr + offset, v as int),
            !access_ok(old(self)@.len(), ptr, offset, 1) ==> r == Err::<(), &'static str>(
                OOB_MEMORY_ACCESS,
            ) && final(self)@ == old(self)@,
    {
        match self.locate(ptr, offset, 1) {
            None => Err(OOB_MEMORY_ACCESS),
            Some(a) => {
                proof {
                    lemma_store_load(old(self)@, a as int, v as int);
                }
                self.set8(a, v);
                Ok(())
            },
        }
    }

    /// Writes a 16-bit number at `ptr + offset`, little-endian.
    pub fn store_u16(&mut self, ptr: u32, offset: u32, v: u16) -> (r: Result<(), &'static str>)
        requires
            old(self).wf(),
        ensures
            final(self).wf(),
            final(self).spec_size() == old(self).spec_size(),
            final(self).spec_max() == old(self).spec_max(),
            access_ok(old(self)@.len(), ptr, offset, 2) ==> r == Ok::<(), &'static str>(())
                && final(self)@ == put16(old(self)@, ptr + offset, v as int),
            !access_ok(old(self)@.len(), ptr, offset, 2) ==> r == Err::<(), &'static str>(
                OOB_MEMORY_ACCESS,
            ) && final(self)@ == old(self)@,
    {
        match self.locate(ptr, offset, 2) {
            None => Err(OOB_MEMORY_ACCESS),
            Some(a) => {
                proof {
                    lemma_store_load(old(self)@, a as int, v as int);
                }
                self.set16(a, v);
                Ok(())
            },
        }
    }

    /// Writes a 32-bit number at `ptr + offset`, little-endian.
    pub fn store_u32(&mut self, ptr: u32, offset: u32, v: u32) -> (r: Result<(), &'static str>)
        requires
            old(self).wf(),
        ensures
            final(self).wf(),
            final(self).spec_size() == old(self).spec_size(),
            final(self).spec_max() == old(self).spec_max(),
            access_ok(old(self)@.len(), ptr, offset, 4) ==> r == Ok::<(), &'static str>(())
                && final(self)@ == put32(old(self)@, ptr + offset, v as int),
            !access_ok(old(self)@.len(), ptr, offset, 4) ==> r == Err::<(), &'static str>(
                OOB_MEMORY_ACCESS,
            ) && final(self)@ == old(self)@,
    {
        match self.locate(ptr, offset, 4) {
            None => Err(OOB_MEMORY_ACCESS),
            Some(a) => {
                proof {
                    lemma_store_load(old(self)@, a as int, v as int);
                }
                self.set32(a, v);
                Ok(())
            },
        }
    }

    /// Writes a 64-bit number at `ptr + offset`, little-endian.
    pub fn store_u64(&mut self, ptr: u32, offset: u32, v: u64) -> (r: Result<(), &'static str>)
        requires
            old(self).wf(),
        ensures
            final(self).wf(),
            final(self).spec_size() == old(self).spec_size(),
            final(self).spec_max() == old(self).spec_max(),
            access_ok(old(self)@.len(), ptr, offset, 8) ==> r == Ok::<(), &'static str>(())
                && final(self)@ == put64(old(self)@, ptr + offset, v as int),
            !access_ok(old(self)@.len(), ptr, offset, 8) ==> r == Err::<(), &'static str>(
                OOB_MEMORY_ACCESS,
            ) && final(self)@ == old(self)@,
    {
        match self.locate(ptr, offset, 8) {
            None => Err(OOB_MEMORY_ACCESS),
            Some(a) => {
                proof {
                    lemma_store_load(old(self)@, a as int, v as int);
                }
                self.set64(a, v);
                Ok(())
            },
        }
    }

    /// Copies `bytes` into the memory at `offset`, or changes nothing and
    /// reports the access when they do not fit.
    pub fn write_bytes(&mut self, offset: u32, bytes: &[u8]) -> (r: Result<(), &'static str>)
        requires
            old(self).wf(),
        ensures
            final(self).wf(),
            final(self).spec_size() == old(self).spec_size(),
            final(self).spec_max() == old(self).spec_max(),
            offset + bytes@.len() <= old(self)@.len() ==> r == Ok::<(), &'static str>(()) && final(self)@
                == old(self)@.subrange(0, offset as int) + bytes@ + old(self)@.subrange(
                offset + bytes@.len(),
                old(self)@.len() as int,
            ),
            offset + bytes@.len() > old(self)@.len() ==> r == Err::<(), &'static str>(
                OOB_MEMORY_ACCESS,
            ) && final(self)@ == old(self)@,
    {
        let start: usize = offset as usize;
        let n: usize = bytes.len();
        let len: usize = self.data.len();
        if start > len || n > len - start {
            return Err(OOB_MEMORY_ACCESS);
        }
        let mut i: usize = 0;
        while i < n
            invariant
                i <= n,
                n == bytes@.len(),
                start + n <= len,
                len == self.data@.len(),
                self.current == old(self).current,
                self.maximum == old(self).maximum,
                forall|k: int| 0 <= k < start ==> self.data@[k] == old(self).data@[k],
                forall|k: int| start <= k < start + i ==> self.data@[k] == bytes@[k - start],
                forall|k: int| start + i <= k < len ==> self.data@[k] == old(self).data@[k],
            decreases n - i,
        {
            self.data[start + i] = bytes[i];
            i = i + 1;
        }
        assert(self.data@ =~= old(self)@.subrange(0, offset as int) + bytes@ + old(self)@.subrange(
            offset + bytes@.len(),
            old(self)@.len() as int,
        ));
        Ok(())
    }
}

/// Reinterprets a byte as signed.
fn byte_to_i8(v: u8) -> (r: i8)
    ensures
        r == signed8(v as int),
{
    if v >= 0x80 {
        (v as i16 - 0x100) as i8
    } else {
        v as i8
    }
}

/// Reinterprets a 16-bit number as signed.
fn word_to_i16(v: u16) -> (r: i16)
    ensures
        r == signed16(v as int),
{
    if v >= 0x8000 {
        (v as i32 - 0x1_0000) as i16
    } else {
        v as i16
    }
}

} // verus!
