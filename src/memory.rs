//! Memory layout of a DfuSe interface: segments, overlap queries and erase planning.

use vstd::arithmetic::div_mod::{lemma_fundamental_div_mod, lemma_mod_multiples_basic};
use vstd::prelude::*;
use vstd::string::StrSliceExecFns;

use nonempty::NonEmpty;

verus! {

#[verifier::external_type_specification]
#[verifier::reject_recursive_types(T)]
pub struct ExNonEmpty<T>(NonEmpty<T>);

/// A named memory with a non-empty, ordered list of segments.
#[derive(Debug, PartialEq, Eq)]
pub struct DfuMemory {
    pub name: String,
    pub segments: NonEmpty<DfuMemSegment>,
}

/// A contiguous region of uniform page size: `[start_addr, end_addr)`.
#[derive(Clone, Copy, Debug, PartialEq, Eq, Structural)]
pub struct DfuMemSegment {
    pub start_addr: u32,
    pub end_addr: u32,
    pub page_size: u32,
    /// Permission bits: read (bit 0), erase (bit 1), write (bit 2).
    pub mem_type: u8,
}

impl DfuMemSegment {
    pub open spec fn spec_start(&self) -> u32 {
        self.start_addr
    }

    pub open spec fn spec_end(&self) -> u32 {
        self.end_addr
    }

    pub open spec fn spec_page_size(&self) -> u32 {
        self.page_size
    }

    pub open spec fn spec_mem_type(&self) -> u8 {
        self.mem_type
    }

    /// Pages are non-empty and the region is a whole number of them.
    pub open spec fn wf(&self) -> bool {
        &&& self.spec_page_size() > 0
        &&& self.spec_start() <= self.spec_end()
        &&& (self.spec_end() - self.spec_start()) % self.spec_page_size() as int == 0
    }
}


impl DfuMemSegment {
    /// `addr` lies between the bounds, `end_addr` included.
    pub open spec fn spec_contains(&self, addr: u32) -> bool {
        self.spec_start() <= addr <= self.spec_end()
    }

    /// `addr` lies in the half-open region `[start_addr, end_addr)`.
    pub open spec fn holds(&self, addr: u32) -> bool {
        self.spec_start() <= addr < self.spec_end()
    }

    pub open spec fn spec_is_contained_in(&self, start: u32, end: u32) -> bool {
        start <= self.spec_start() && self.spec_end() <= end
    }

    /// Overlap with `[start, end]`: the segment holds `start`, holds `end`, or lies inside the
    /// range.
    pub open spec fn overlaps(&self, start: u32, end: u32) -> bool {
        self.holds(start) || self.holds(end) || self.spec_is_contained_in(start, end)
    }

    /// First address to erase: `start` clipped to the segment.
    pub open spec fn erase_start(&self, start: u32) -> int {
        if start >= self.spec_start() {
            start as int
        } else {
            self.spec_start() as int
        }
    }

    /// `end` clipped to the segment.
    pub open spec fn erase_end(&self, end: u32) -> int {
        if end <= self.spec_end() {
            end as int
        } else {
            self.spec_end() as int
        }
    }

    /// Pages to erase: the clipped length divided by the page size, rounded up.
    pub open spec fn erase_count(&self, start: u32, end: u32) -> int {
        let d = self.erase_end(end) - self.erase_start(start);
        let p = self.spec_page_size() as int;
        d / p + if d % p != 0 {
            1int
        } else {
            0int
        }
    }

    /// The clipped start rounded down to a page boundary of the segment.
    pub open spec fn erase_base(&self, start: u32) -> int {
        let p = self.spec_page_size() as int;
        self.spec_start() + (self.erase_start(start) - self.spec_start()) / p * p
    }

    /// Addresses of the pages to erase in this segment for `[start, end]`.
    pub open spec fn spec_erase_pages(&self, start: u32, end: u32) -> Seq<u32> {
        Seq::new(
            self.erase_count(start, end) as nat,
            |k: int| (self.erase_base(start) + k * self.spec_page_size()) as u32,
        )
    }

    pub fn start_addr(&self) -> (r: u32)
        ensures
            r == self.spec_start(),
    {
        self.start_addr
    }

    pub fn end_addr(&self) -> (r: u32)
        ensures
            r == self.spec_end(),
    {
        self.end_addr
    }

    pub fn page_size(&self) -> (r: u32)
        ensures
            r == self.spec_page_size(),
    {
        self.page_size
    }

    /// Permission bits: read (bit 0), erase (bit 1), write (bit 2).
    pub fn mem_type(&self) -> (r: u8)
        ensures
            r == self.spec_mem_type(),
    {
        self.mem_type
    }

    /// Number of pages; the pages exactly fill the segment.
    pub fn pages(&self) -> (r: u32)
        requires
            self.wf(),
        ensures
            r == (self.spec_end() - self.spec_start()) / self.spec_page_size() as int,
            r * self.spec_page_size() == self.spec_end() - self.spec_start(),
    {
        let r = (self.end_addr - self.start_addr) / self.page_size;
        proof {
            let d = (self.end_addr - self.start_addr) as int;
            let p = self.page_size as int;
            assert(d == p * (d / p) + d % p) by (nonlinear_arith)
                requires
                    p > 0,
            ;
            assert(r * p == p * r) by (nonlinear_arith);
        }
        r
    }

    pub fn is_contained_in(&self, start_addr: u32, end_addr: u32) -> (r: bool)
        ensures
            r == self.spec_is_contained_in(start_addr, end_addr),
    {
        start_addr <= self.start_addr && self.end_addr <= end_addr
    }

    fn holds_addr(&self, addr: u32) -> (r: bool)
        ensures
            r == self.holds(addr),
    {
        self.start_addr <= addr && addr < self.end_addr
    }

    pub fn contains(&self, addr: u32) -> (r: bool)
        ensures
            r == self.spec_contains(addr),
    {
        addr >= self.start_addr && addr <= self.end_addr
    }

    /// First address and number of pages to erase for `[start_addr, end_addr]`.
    pub fn get_erase_pages(&self, start_addr: u32, end_addr: u32) -> (r: (u32, u32))
        requires
            self.wf(),
            start_addr <= end_addr,
            self.overlaps(start_addr, end_addr),
        ensures
            r.0 == self.erase_start(start_addr),
            r.1 == self.erase_count(start_addr, end_addr),
    {
        let erase_start = if start_addr >= self.start_addr {
            start_addr
        } else {
            self.start_addr
        };
        let erase_end = if end_addr <= self.end_addr {
            end_addr
        } else {
            self.end_addr
        };
        let d = erase_end - erase_start;
        let count = d / self.page_size + if d % self.page_size != 0 {
            1u32
        } else {
            0u32
        };
        (erase_start, count)
    }

    pub fn readable(&self) -> (r: bool)
        ensures
            r == (self.spec_mem_type() & 1 == 1),
    {
        self.mem_type & 1 == 1
    }

    pub fn erasable(&self) -> (r: bool)
        ensures
            r == (self.spec_mem_type() & 2 == 2),
    {
        self.mem_type & 2 == 2
    }

    pub fn writable(&self) -> (r: bool)
        ensures
            r == (self.spec_mem_type() & 4 == 4),
    {
        self.mem_type & 4 == 4
    }
}

/// A segment summarised for display: bounds, page size and permissions.
pub struct MemorySegment {
    pub start_addr: u32,
    pub end_addr: u32,
    pub page_size: u32,
    pub readable: bool,
    pub writable: bool,
    pub erasable: bool,
}

impl MemorySegment {
    pub fn from_dfu_segment(segment: &DfuMemSegment) -> (r: Self)
        ensures
            r.start_addr == segment.spec_start(),
            r.end_addr == segment.spec_end(),
            r.page_size == segment.spec_page_size(),
            r.readable == (segment.spec_mem_type() & 1 == 1),
            r.writable == (segment.spec_mem_type() & 4 == 4),
            r.erasable == (segment.spec_mem_type() & 2 == 2),
    {
        MemorySegment {
            start_addr: segment.start_addr(),
            end_addr: segment.end_addr(),
            page_size: segment.page_size(),
            readable: segment.readable(),
            writable: segment.writable(),
            erasable: segment.erasable(),
        }
    }
}

/// Segments that overlap `[start, end]`, in layout order.
pub open spec fn overlapping(segs: Seq<DfuMemSegment>, start: u32, end: u32) -> Seq<DfuMemSegment>
    decreases segs.len(),
{
    if segs.len() == 0 {
        seq![]
    } else {
        let rest = overlapping(segs.drop_last(), start, end);
        if segs.last().overlaps(start, end) {
            rest.push(segs.last())
        } else {
            rest
        }
    }
}

/// Pages to erase for `[start, end]` over the segments: those of each overlapping segment, in
/// layout order.
pub open spec fn erase_plan(segs: Seq<DfuMemSegment>, start: u32, end: u32) -> Seq<u32>
    decreases segs.len(),
{
    if segs.len() == 0 {
        seq![]
    } else {
        let rest = erase_plan(segs.drop_last(), start, end);
        if segs.last().overlaps(start, end) {
            rest + segs.last().spec_erase_pages(start, end)
        } else {
            rest
        }
    }
}

/// Every segment is well formed and each starts where the one before it ends.
pub open spec fn contiguous(segs: Seq<DfuMemSegment>) -> bool {
    &&& forall|i: int| 0 <= i < segs.len() ==> (#[trigger] segs[i]).wf()
    &&& forall|i: int|
        0 < i < segs.len() ==> (#[trigger] segs[i]).spec_start() == segs[i - 1].spec_end()
}

/// `a` lies on a page boundary of a segment that holds it.
pub open spec fn on_page_boundary(segs: Seq<DfuMemSegment>, a: u32) -> bool {
    exists|k: int|
        0 <= k < segs.len() && segs[k].spec_start() <= a < segs[k].spec_end() && (a
            - segs[k].spec_start()) % (#[trigger] segs[k]).spec_page_size() as int == 0
}

/// Where the `k`-th page to erase lies in its segment.
proof fn lemma_erase_page(s: DfuMemSegment, start: u32, end: u32, k: int)
    requires
        s.wf(),
        start <= end,
        s.overlaps(start, end),
        0 <= k < s.erase_count(start, end),
    ensures
        s.erase_start(start) <= s.erase_end(end),
        s.erase_base(start) <= s.erase_start(start),
        s.spec_start() <= s.erase_base(start) + k * s.spec_page_size(),
        s.erase_base(start) + k * s.spec_page_size() < s.erase_end(end) <= s.spec_end(),
        (s.erase_base(start) + k * s.spec_page_size() - s.spec_start()) % s.spec_page_size() as int
            == 0,
        s.erase_base(start) + (k + 1) * s.spec_page_size() == s.erase_base(start) + k
            * s.spec_page_size() + s.spec_page_size(),
{
    let st = s.spec_start() as int;
    let p = s.spec_page_size() as int;
    let es = s.erase_start(start);
    let ee = s.erase_end(end);
    let d = ee - es;
    let q = (es - st) / p;
    let count = s.erase_count(start, end);
    lemma_fundamental_div_mod(d, p);
    lemma_fundamental_div_mod(es - st, p);
    assert(q >= 0 && q * p <= es - st) by (nonlinear_arith)
        requires
            es - st >= 0,
            p > 0,
            q == (es - st) / p,
            es - st == p * q + (es - st) % p,
            (es - st) % p >= 0,
    ;
    assert(k * p < d) by (nonlinear_arith)
        requires
            0 <= k < count,
            count == d / p + if d % p != 0 {
                1int
            } else {
                0int
            },
            d == p * (d / p) + d % p,
            0 <= d % p < p,
            p > 0,
    ;
    assert(st + q * p + k * p == st + (q + k) * p) by (nonlinear_arith);
    assert((k + 1) * p == k * p + p) by (nonlinear_arith);
    lemma_mod_multiples_basic(q + k, p);
    assert(k * p >= 0) by (nonlinear_arith)
        requires
            k >= 0,
            p > 0,
    ;
}

impl DfuMemory {
    pub open spec fn segs(&self) -> Seq<DfuMemSegment> {
        seq![self.segments.head] + self.segments.tail@
    }

    pub open spec fn wf(&self) -> bool {
        contiguous(self.segs())
    }

    fn segment_list(&self) -> (r: Vec<DfuMemSegment>)
        ensures
            r@ == self.segs(),
    {
        let mut r: Vec<DfuMemSegment> = Vec::new();
        r.push(self.segments.head);
        let mut i: usize = 0;
        while i < self.segments.tail.len()
            invariant
                i <= self.segments.tail@.len(),
                r@ == seq![self.segments.head] + self.segments.tail@.subrange(0, i as int),
            decreases self.segments.tail@.len() - i,
        {
            r.push(self.segments.tail[i]);
            i += 1;
            assert(r@ == seq![self.segments.head] + self.segments.tail@.subrange(0, i as int));
        }
        assert(self.segments.tail@.subrange(0, i as int) == self.segments.tail@);
        r
    }

    /// The segments that overlap `[start_address, end_address]`, in ascending address order.
    pub fn find_segments(&self, start_address: u32, end_address: u32) -> (r: Vec<DfuMemSegment>)
        requires
            self.wf(),
        ensures
            r@ == overlapping(self.segs(), start_address, end_address),
            forall|i: int| 0 <= i < r@.len() ==> (#[trigger] r@[i]).overlaps(start_address, end_address),
            forall|i: int, j: int|
                0 <= i < j < r@.len() ==> #[trigger] r@[i].spec_end() <= #[trigger] r@[j].spec_start(),
    {
        let segs = self.segment_list();
        let mut r: Vec<DfuMemSegment> = Vec::new();
        let mut i: usize = 0;
        while i < segs.len()
            invariant
                i <= segs@.len(),
                segs@ == self.segs(),
                contiguous(segs@),
                r@ == overlapping(segs@.subrange(0, i as int), start_address, end_address),
                forall|x: int| 0 <= x < r@.len() ==> (#[trigger] r@[x]).overlaps(start_address, end_address),
                forall|x: int, y: int|
                    0 <= x < y < r@.len() ==> #[trigger] r@[x].spec_end() <= #[trigger] r@[y].spec_start(),
                i > 0 ==> forall|x: int| 0 <= x < r@.len() ==> (#[trigger] r@[x]).spec_end() <= segs@[i - 1].spec_end(),
            decreases segs@.len() - i,
        {
            let s = segs[i];
            let ghost before = r@;
            assert(segs@.subrange(0, i + 1).drop_last() == segs@.subrange(0, i as int));
            if s.holds_addr(start_address) || s.holds_addr(end_address) || s.is_contained_in(
                start_address,
                end_address,
            ) {
                r.push(s);
                proof {
                    if i > 0 {
                        assert(segs@[i as int].spec_start() == segs@[i - 1].spec_end());
                    }
                    assert forall|x: int, y: int|
                        0 <= x < y < r@.len() implies #[trigger] r@[x].spec_end() <= #[trigger] r@[y].spec_start() by {
                        if y == r@.len() - 1 && i > 0 {
                            assert(before[x].spec_end() <= segs@[i - 1].spec_end());
                        }
                    }
                }
            }
            proof {
                assert forall|x: int| 0 <= x < r@.len() implies (#[trigger] r@[x]).spec_end() <= segs@[i as int].spec_end() by {
                    if i > 0 && x < before.len() {
                        assert(segs@[i as int].spec_start() == segs@[i - 1].spec_end());
                    }
                }
            }
            i += 1;
        }
        assert(segs@.subrange(0, i as int) == segs@);
        r
    }

    /// Page addresses to erase for `[start_address, end_address]`: for each overlapping
    /// segment, the range clipped to it, counted in whole pages from the page boundary at or
    /// below its start.
    pub fn get_erase_pages(&self, start_address: u32, end_address: u32) -> (r: Vec<u32>)
        requires
            self.wf(),
            start_address <= end_address,
        ensures
            r@ == erase_plan(self.segs(), start_address, end_address),
            forall|i: int, j: int| 0 <= i < j < r@.len() ==> #[trigger] r@[i] < #[trigger] r@[j],
            forall|i: int| 0 <= i < r@.len() ==> on_page_boundary(self.segs(), #[trigger] r@[i]),
    {
        let segs = self.segment_list();
        let mut r: Vec<u32> = Vec::new();
        let mut i: usize = 0;
        while i < segs.len()
            invariant
                i <= segs@.len(),
                segs@ == self.segs(),
                contiguous(segs@),
                start_address <= end_address,
                r@ == erase_plan(segs@.subrange(0, i as int), start_address, end_address),
                forall|x: int, y: int| 0 <= x < y < r@.len() ==> #[trigger] r@[x] < #[trigger] r@[y],
                forall|x: int| 0 <= x < r@.len() ==> on_page_boundary(segs@, #[trigger] r@[x]),
                i > 0 ==> forall|x: int| 0 <= x < r@.len() ==> #[trigger] r@[x] < segs@[i - 1].spec_end(),
                i == 0 ==> r@.len() == 0,
            decreases segs@.len() - i,
        {
            let s = segs[i];
            let ghost before = r@;
            assert(segs@.subrange(0, i + 1).drop_last() == segs@.subrange(0, i as int));
            assert(segs@.subrange(0, i + 1).last() == s);
            if i > 0 {
                assert(s.spec_start() == segs@[i - 1].spec_end());
            }
            if s.holds_addr(start_address) || s.holds_addr(end_address) || s.is_contained_in(
                start_address,
                end_address,
            ) {
                let (first, count) = s.get_erase_pages(start_address, end_address);
                let page = s.page_size;
                proof {
                    if count > 0 {
                        lemma_erase_page(s, start_address, end_address, 0);
                    }
                    lemma_fundamental_div_mod((first - s.start_addr) as int, page as int);
                    let x = (first - s.start_addr) as int;
                    assert((x / page as int) * page as int <= x) by (nonlinear_arith)
                        requires
                            page > 0,
                            x >= 0,
                            x == page * (x / page as int) + x % page as int,
                            x % page as int >= 0,
                    ;
                }
                let base = s.start_addr + (first - s.start_addr) / page * page;
                assert(base == s.erase_base(start_address));
                let mut k: u32 = 0;
                while k < count
                    invariant
                        k <= count,
                        count == s.erase_count(start_address, end_address),
                        base == s.erase_base(start_address),
                        page == s.spec_page_size(),
                        s == segs@[i as int],
                        i < segs@.len(),
                        contiguous(segs@),
                        start_address <= end_address,
                        s.overlaps(start_address, end_address),
                        r@ == before + s.spec_erase_pages(start_address, end_address).subrange(0, k as int),
                        forall|x: int, y: int| 0 <= x < y < r@.len() ==> #[trigger] r@[x] < #[trigger] r@[y],
                        forall|x: int| 0 <= x < r@.len() ==> on_page_boundary(segs@, #[trigger] r@[x]),
                        forall|x: int| 0 <= x < r@.len() ==> #[trigger] r@[x] < base + k * page
                            || (k == 0 && r@[x] < s.spec_start()) || (k == 0 && i == 0),
                        i == 0 ==> before.len() == 0,
                        forall|x: int| 0 <= x < before.len() ==> #[trigger] before[x] <= s.spec_start(),
                    decreases count - k,
                {
                    proof {
                        lemma_erase_page(s, start_address, end_address, k as int);
                        assert(s.wf());
                    }
                    let addr = base + k * page;
                    let ghost prev = r@;
                    r.push(addr);
                    proof {
                        assert(on_page_boundary(segs@, addr)) by {
                            assert(segs@[i as int] == s);
                        }
                        assert forall|x: int, y: int| 0 <= x < y < r@.len() implies #[trigger] r@[x] < #[trigger] r@[y] by {
                            if y == r@.len() - 1 {
                                assert(prev[x] < addr || x < before.len());
                                if x < before.len() {
                                    assert(before[x] <= s.spec_start());
                                }
                            }
                        }
                        assert(r@ == before + s.spec_erase_pages(start_address, end_address).subrange(0, k + 1));
                    }
                    k += 1;
                }
                proof {
                    assert(s.spec_erase_pages(start_address, end_address).subrange(0, k as int)
                        == s.spec_erase_pages(start_address, end_address));
                    assert forall|x: int| 0 <= x < r@.len() implies #[trigger] r@[x] < segs@[i as int].spec_end() by {
                        if x < before.len() {
                        } else {
                            lemma_erase_page(s, start_address, end_address, x - before.len());
                        }
                    }
                }
            } else {
                assert forall|x: int| 0 <= x < r@.len() implies #[trigger] r@[x] < segs@[i as int].spec_end() by {
                }
            }
            i += 1;
        }
        assert(segs@.subrange(0, i as int) == segs@);
        r
    }
}

pub open spec fn is_dec_digit(c: char) -> bool {
    '0' <= c <= '9'
}

pub open spec fn is_hex_digit(c: char) -> bool {
    is_dec_digit(c) || 'a' <= c <= 'f' || 'A' <= c <= 'F'
}

pub open spec fn is_digit_in(c: char, hex: bool) -> bool {
    if hex {
        is_hex_digit(c)
    } else {
        is_dec_digit(c)
    }
}

pub open spec fn radix(hex: bool) -> nat {
    if hex {
        16
    } else {
        10
    }
}

pub open spec fn digit_value(c: char) -> nat {
    if is_dec_digit(c) {
        (c as u32 - '0' as u32) as nat
    } else if 'a' <= c <= 'f' {
        (c as u32 - 'a' as u32 + 10) as nat
    } else {
        (c as u32 - 'A' as u32 + 10) as nat
    }
}

/// End of the run of digits that starts at `from`.
pub open spec fn digits_end(cs: Seq<char>, from: int, hex: bool) -> int
    decreases cs.len() - from,
{
    if 0 <= from < cs.len() && is_digit_in(cs[from], hex) {
        digits_end(cs, from + 1, hex)
    } else {
        from
    }
}

/// The number that the digits in `cs[from..to]` write.
pub open spec fn digits_value(cs: Seq<char>, from: int, to: int, hex: bool) -> nat
    decreases to - from,
{
    if to <= from {
        0
    } else {
        digits_value(cs, from, to - 1, hex) * radix(hex) + digit_value(cs[to - 1])
    }
}

/// First `/` at or after `from`, or the length where there is none.
pub open spec fn slash_at(cs: Seq<char>, from: int) -> int
    decreases cs.len() - from,
{
    if from >= cs.len() {
        cs.len() as int
    } else if cs[from] == '/' {
        from
    } else {
        slash_at(cs, from + 1)
    }
}

pub open spec fn is_space(c: char) -> bool {
    c == ' ' || c == '\t' || c == '\n' || c == '\r' || c == '\x0B' || c == '\x0C'
}

/// `to` moved back over the whitespace that ends `cs[from..to]`.
pub open spec fn trimmed_end(cs: Seq<char>, from: int, to: int) -> int
    decreases to - from,
{
    if to > from && is_space(cs[to - 1]) {
        trimmed_end(cs, from, to - 1)
    } else {
        to
    }
}

pub open spec fn is_unit(c: char) -> bool {
    c == 'K' || c == 'M' || c == 'B' || c == ' '
}

pub open spec fn unit_multiplier(c: char) -> nat {
    if c == 'K' {
        1024
    } else if c == 'M' {
        1024 * 1024
    } else {
        1
    }
}

pub open spec fn is_type_char(c: char) -> bool {
    'a' <= c <= 'g'
}

/// Permission bits of a sector-type letter: its distance from 0x60, low three bits.
pub open spec fn type_bits(c: char) -> u8 {
    (((c as u32 - 0x60) as u32) & 7u32) as u8
}

/// The segment list `Dec "*" Dec Unit TypeChar ("," ...)*` that fills `cs` from `pos` on, its
/// first segment starting at `addr`; `None` where `cs` does not match or a value does not fit
/// 32 bits.
pub open spec fn spec_segments(cs: Seq<char>, pos: int, addr: nat) -> Option<Seq<DfuMemSegment>>
    decreases cs.len() - pos,
{
    let a1 = digits_end(cs, pos, false);
    let b0 = a1 + 1;
    let b1 = digits_end(cs, b0, false);
    if pos < 0 || a1 <= pos || b1 <= b0 || b1 + 2 > cs.len() || cs[a1] != '*' || !is_unit(cs[b1])
        || !is_type_char(cs[b1 + 1]) {
        None
    } else {
        let pages = digits_value(cs, pos, a1, false);
        let size = digits_value(cs, b0, b1, false) * unit_multiplier(cs[b1]);
        let end = addr + pages * size;
        if size == 0 || size > u32::MAX || end > u32::MAX {
            None
        } else {
            let seg = DfuMemSegment {
                start_addr: addr as u32,
                end_addr: end as u32,
                page_size: size as u32,
                mem_type: type_bits(cs[b1 + 1]),
            };
            let next = b1 + 2;
            if next == cs.len() {
                Some(seq![seg])
            } else if cs[next] == ',' {
                match spec_segments(cs, next + 1, end) {
                    Some(rest) => Some(seq![seg] + rest),
                    None => None,
                }
            } else {
                None
            }
        }
    }
}

/// The layout that `cs` describes, as name and segments:
/// `"@"? Name "/0x" Hex "U"? "/" SegList`. The name stops at the first `/` and drops the
/// whitespace before it; the base address must fit 32 bits.
pub open spec fn spec_parse_layout(cs: Seq<char>) -> Option<(Seq<char>, Seq<DfuMemSegment>)> {
    let nb: int = if cs.len() > 0 && cs[0] == '@' {
        1
    } else {
        0
    };
    let sl = slash_at(cs, nb);
    let h0 = sl + 3;
    let h1 = digits_end(cs, h0, true);
    let p = if h1 < cs.len() && cs[h1] == 'U' {
        h1 + 1
    } else {
        h1
    };
    if h0 > cs.len() || cs[sl + 1] != '0' || cs[sl + 2] != 'x' || h1 <= h0 || digits_value(
        cs,
        h0,
        h1,
        true,
    ) > u32::MAX || p >= cs.len() || cs[p] != '/' {
        None
    } else {
        match spec_segments(cs, p + 1, digits_value(cs, h0, h1, true)) {
            Some(segs) => Some((cs.subrange(nb, trimmed_end(cs, nb, sl)), segs)),
            None => None,
        }
    }
}

proof fn lemma_digits_end(cs: Seq<char>, from: int, i: int, hex: bool)
    requires
        0 <= from <= i <= cs.len(),
        forall|j: int| from <= j < i ==> is_digit_in(#[trigger] cs[j], hex),
    ensures
        digits_end(cs, from, hex) == digits_end(cs, i, hex),
    decreases i - from,
{
    if from < i {
        lemma_digits_end(cs, from + 1, i, hex);
    }
}

proof fn lemma_digits_end_bounds(cs: Seq<char>, from: int, hex: bool)
    requires
        0 <= from <= cs.len(),
    ensures
        from <= digits_end(cs, from, hex) <= cs.len(),
        forall|j: int| from <= j < digits_end(cs, from, hex) ==> is_digit_in(#[trigger] cs[j], hex),
    decreases cs.len() - from,
{
    if from < cs.len() && is_digit_in(cs[from], hex) {
        lemma_digits_end_bounds(cs, from + 1, hex);
    }
}

proof fn lemma_segments_contiguous(cs: Seq<char>, pos: int, addr: nat)
    requires
        spec_segments(cs, pos, addr) is Some,
    ensures
        spec_segments(cs, pos, addr)->0.len() > 0,
        spec_segments(cs, pos, addr)->0[0].spec_start() == addr,
        contiguous(spec_segments(cs, pos, addr)->0),
    decreases cs.len() - pos,
{
    let a1 = digits_end(cs, pos, false);
    let b0 = a1 + 1;
    let b1 = digits_end(cs, b0, false);
    let pages = digits_value(cs, pos, a1, false);
    let size = digits_value(cs, b0, b1, false) * unit_multiplier(cs[b1]);
    let end = addr + pages * size;
    let seg = spec_segments(cs, pos, addr)->0[0];
    lemma_mod_multiples_basic(pages as int, size as int);
    assert(pages * size >= 0) by (nonlinear_arith);
    assert(seg.wf());
    let next = b1 + 2;
    if next != cs.len() {
        lemma_segments_contiguous(cs, next + 1, end);
        let rest = spec_segments(cs, next + 1, end)->0;
        let all = spec_segments(cs, pos, addr)->0;
        assert(all == seq![seg] + rest);
        assert forall|i: int| 0 < i < all.len() implies (#[trigger] all[i]).spec_start() == all[i
            - 1].spec_end() by {
            if i > 1 {
                assert(all[i] == rest[i - 1]);
            }
        }
        assert forall|i: int| 0 <= i < all.len() implies (#[trigger] all[i]).wf() by {
            if i > 0 {
                assert(all[i] == rest[i - 1]);
            }
        }
    }
}

fn chars_of(s: &str) -> (r: Vec<char>)
    ensures
        r@ == s@,
{
    let n = s.unicode_len();
    let mut r: Vec<char> = Vec::new();
    let mut i: usize = 0;
    while i < n
        invariant
            n == s@.len(),
            i <= n,
            r@ == s@.subrange(0, i as int),
        decreases n - i,
    {
        r.push(s.get_char(i));
        i += 1;
        assert(r@ == s@.subrange(0, i as int));
    }
    r
}

fn digit_val(c: char) -> (r: u64)
    requires
        is_hex_digit(c),
    ensures
        r == digit_value(c),
        r < 16,
{
    if '0' <= c && c <= '9' {
        (c as u32 - '0' as u32) as u64
    } else if 'a' <= c && c <= 'f' {
        (c as u32 - 'a' as u32 + 10) as u64
    } else {
        (c as u32 - 'A' as u32 + 10) as u64
    }
}

fn is_digit(c: char, hex: bool) -> (r: bool)
    ensures
        r == is_digit_in(c, hex),
{
    if hex {
        '0' <= c && c <= '9' || 'a' <= c && c <= 'f' || 'A' <= c && c <= 'F'
    } else {
        '0' <= c && c <= '9'
    }
}

/// The run of digits at `from`: where it ends, and its value, capped at 2^32.
fn scan_number(cs: &Vec<char>, from: usize, hex: bool) -> (r: (usize, u64))
    requires
        from <= cs@.len(),
    ensures
        r.0 == digits_end(cs@, from as int, hex),
        r.1 == if digits_value(cs@, from as int, r.0 as int, hex) < 0x1_0000_0000 {
            digits_value(cs@, from as int, r.0 as int, hex)
        } else {
            0x1_0000_0000
        },
{
    let base: u64 = if hex {
        16
    } else {
        10
    };
    let mut i = from;
    let mut acc: u64 = 0;
    while i < cs.len() && is_digit(cs[i], hex)
        invariant
            from <= i <= cs@.len(),
            base == radix(hex),
            forall|j: int| from <= j < i ==> is_digit_in(#[trigger] cs@[j], hex),
            acc == if digits_value(cs@, from as int, i as int, hex) < 0x1_0000_0000 {
                digits_value(cs@, from as int, i as int, hex)
            } else {
                0x1_0000_0000
            },
        decreases cs@.len() - i,
    {
        let d = digit_val(cs[i]);
        let ghost v = digits_value(cs@, from as int, i as int, hex);
        assert(digits_value(cs@, from as int, i + 1, hex) == v * base + d);
        if acc >= 0x1_0000_0000 {
            assert(v * base + d >= 0x1_0000_0000) by (nonlinear_arith)
                requires
                    v >= 0x1_0000_0000,
                    base >= 10,
                    d >= 0,
            ;
        } else {
            let next = acc * base + d;
            acc = if next >= 0x1_0000_0000 {
                0x1_0000_0000
            } else {
                next
            };
        }
        i += 1;
    }
    proof {
        lemma_digits_end(cs@, from as int, i as int, hex);
    }
    (i, acc)
}

fn find_slash(cs: &Vec<char>, from: usize) -> (r: usize)
    requires
        from <= cs@.len(),
    ensures
        r == slash_at(cs@, from as int),
        from <= r <= cs@.len(),
{
    let mut i = from;
    while i < cs.len() && cs[i] != '/'
        invariant
            from <= i <= cs@.len(),
            slash_at(cs@, i as int) == slash_at(cs@, from as int),
        decreases cs@.len() - i,
    {
        i += 1;
    }
    i
}

fn trim_end(cs: &Vec<char>, from: usize, to: usize) -> (r: usize)
    requires
        from <= to <= cs@.len(),
    ensures
        r == trimmed_end(cs@, from as int, to as int),
        from <= r <= to,
{
    let mut i = to;
    while i > from && (cs[i - 1] == ' ' || cs[i - 1] == '\t' || cs[i - 1] == '\n' || cs[i - 1]
        == '\r' || cs[i - 1] == '\x0B' || cs[i - 1] == '\x0C')
        invariant
            from <= i <= to,
            to <= cs@.len(),
            trimmed_end(cs@, from as int, i as int) == trimmed_end(cs@, from as int, to as int),
        decreases i,
    {
        i -= 1;
    }
    i
}

fn parse_segments(cs: &Vec<char>, pos: usize, addr: u32) -> (r: Option<Vec<DfuMemSegment>>)
    requires
        pos <= cs@.len(),
    ensures
        r is Some <==> spec_segments(cs@, pos as int, addr as nat) is Some,
        r is Some ==> r->0@ == spec_segments(cs@, pos as int, addr as nat)->0,
    decreases cs@.len() - pos,
{
    let (a1, pages) = scan_number(cs, pos, false);
    proof {
        lemma_digits_end_bounds(cs@, pos as int, false);
    }
    if a1 == pos || a1 >= cs.len() || cs[a1] != '*' {
        return None;
    }
    let b0 = a1 + 1;
    let (b1, size) = scan_number(cs, b0, false);
    proof {
        lemma_digits_end_bounds(cs@, b0 as int, false);
    }
    if b1 == b0 || cs.len() - b1 < 2 {
        return None;
    }
    let unit = cs[b1];
    let ty = cs[b1 + 1];
    if !(unit == 'K' || unit == 'M' || unit == 'B' || unit == ' ') || !('a' <= ty && ty <= 'g') {
        return None;
    }
    let mult: u64 = if unit == 'K' {
        1024
    } else if unit == 'M' {
        1024 * 1024
    } else {
        1
    };
    let ghost pages_v = digits_value(cs@, pos as int, a1 as int, false);
    let ghost size_v = digits_value(cs@, b0 as int, b1 as int, false);
    if size > 0xffff_ffff {
        assert(size_v * mult > u32::MAX) by (nonlinear_arith)
            requires
                size_v >= 0x1_0000_0000,
                mult >= 1,
        ;
        return None;
    }
    let page_size = size * mult;
    if page_size == 0 || page_size > 0xffff_ffff {
        return None;
    }
    if pages > 0xffff_ffff {
        assert(addr + pages_v * (size_v * mult) > u32::MAX) by (nonlinear_arith)
            requires
                pages_v >= 0x1_0000_0000,
                size_v * mult >= 1,
        ;
        return None;
    }
    assert(pages * page_size <= 0xffff_ffff * 0xffff_ffff) by (nonlinear_arith)
        requires
            pages <= 0xffff_ffff,
            page_size <= 0xffff_ffff,
    ;
    let end = addr as u64 + pages * page_size;
    if end > 0xffff_ffff {
        return None;
    }
    let offset: u32 = ty as u32 - 0x60;
    let bits = offset & 7;
    assert(bits <= 7) by (bit_vector)
        requires
            bits == offset & 7,
    ;
    let seg = DfuMemSegment {
        start_addr: addr,
        end_addr: end as u32,
        page_size: page_size as u32,
        mem_type: bits as u8,
    };
    let next = b1 + 2;
    if next == cs.len() {
        let r = vec![seg];
        assert(r@ == seq![seg]);
        Some(r)
    } else if cs[next] == ',' {
        match parse_segments(cs, next + 1, end as u32) {
            Some(rest) => {
                let mut r = vec![seg];
                let mut rest = rest;
                r.append(&mut rest);
                Some(r)
            },
            None => None,
        }
    } else {
        None
    }
}

/// Parses a DfuSe interface string such as
/// `@Internal Flash  /0x08000000/04*016Kg,01*064Kg,07*128Kg`. Segments follow each other from
/// the base address; `None` where the string does not match the grammar.
pub fn parse_memory_layout(mem_layout_str: &str) -> (r: Option<DfuMemory>)
    ensures
        r is Some <==> spec_parse_layout(mem_layout_str@) is Some,
        r is Some ==> spec_parse_layout(mem_layout_str@) == Some((r->0.name@, r->0.segs())),
        r is Some ==> r->0.wf(),
        r is Some ==> forall|i: int|
            0 < i < r->0.segs().len() ==> (#[trigger] r->0.segs()[i]).spec_start() == r->0.segs()[i
                - 1].spec_end(),
{
    let cs = chars_of(mem_layout_str);
    let nb: usize = if cs.len() > 0 && cs[0] == '@' {
        1
    } else {
        0
    };
    let sl = find_slash(&cs, nb);
    if cs.len() - sl < 3 || cs[sl + 1] != '0' || cs[sl + 2] != 'x' {
        return None;
    }
    let h0 = sl + 3;
    let (h1, base) = scan_number(&cs, h0, true);
    proof {
        lemma_digits_end_bounds(cs@, h0 as int, true);
    }
    if h1 == h0 || base > 0xffff_ffff {
        return None;
    }
    let p = if h1 < cs.len() && cs[h1] == 'U' {
        h1 + 1
    } else {
        h1
    };
    if p >= cs.len() || cs[p] != '/' {
        return None;
    }
    match parse_segments(&cs, p + 1, base as u32) {
        Some(segments) => {
            proof {
                lemma_segments_contiguous(cs@, p + 1, base as nat);
            }
            let ne = first_and_rest(segments);
            let te = trim_end(&cs, nb, sl);
            let name = String::from_str(mem_layout_str.substring_char(nb, te));
            let layout = DfuMemory { name, segments: ne };
            Some(layout)
        },
        None => None,
    }
}

fn first_and_rest(v: Vec<DfuMemSegment>) -> (r: NonEmpty<DfuMemSegment>)
    requires
        v@.len() > 0,
    ensures
        seq![r.head] + r.tail@ == v@,
{
    let mut tail = v;
    let head = tail.remove(0);
    let r = NonEmpty { head, tail };
    assert(seq![r.head] + r.tail@ == v@);
    r
}

} // verus!
