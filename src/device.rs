//! DFU devices and their interfaces: choosing the interface and segments for an address range,
//! and planning uploads and downloads.

use vstd::arithmetic::div_mod::lemma_fundamental_div_mod;
use vstd::prelude::*;

use nonempty::NonEmpty;

use crate::connection::{effective_transfer_size, DfuError, DEFAULT_TRANSFER_SIZE};
use crate::memory::{
    erase_plan, on_page_boundary, overlapping, parse_memory_layout, spec_parse_layout,
    DfuMemSegment, DfuMemory, MemorySegment,
};

verus! {

#[verifier::external_type_specification]
#[verifier::external_body]
pub struct ExDeviceInfo(nusb::DeviceInfo);

#[verifier::external_type_specification]
#[verifier::external_body]
pub struct ExInterface(nusb::Interface);

/// Relies on `nusb::DeviceInfo::vendor_id`, which returns the device's vendor ID.
pub assume_specification[ nusb::DeviceInfo::vendor_id ](info: &nusb::DeviceInfo) -> u16;

/// Relies on `nusb::DeviceInfo::product_id`, which returns the device's product ID.
pub assume_specification[ nusb::DeviceInfo::product_id ](info: &nusb::DeviceInfo) -> u16;

pub const DFU_CLASS: u8 = 0xFE;

pub const DFU_SUBCLASS: u8 = 0x1;

/// An alternate setting with class `0xFE`, subclass `0x01` is a DFU interface.
pub fn is_dfu_interface(class: u8, subclass: u8) -> (r: bool)
    ensures
        r == (class == DFU_CLASS && subclass == DFU_SUBCLASS),
{
    class == DFU_CLASS && subclass == DFU_SUBCLASS
}

/// One alternate setting of a DFU interface, with the memory layout it describes.
pub struct DfuInterface {
    config: u8,
    interface: u8,
    alt_setting: u8,
    layout: DfuMemory,
}

/// The interface, alternate setting and memory segments that serve an address range.
pub struct DfuInterfaceSegments {
    interface: u8,
    alt_setting: u8,
    segments: NonEmpty<DfuMemSegment>,
}

/// A DFU device: its USB identity and its DFU interfaces (at least one).
pub struct DfuDevice {
    dev: nusb::DeviceInfo,
    interfaces: Vec<DfuInterface>,
}

/// Optional vendor and product IDs that devices must match.
pub struct DfuDeviceFilter {
    vid: Option<u16>,
    pid: Option<u16>,
}

/// A claimed DFU interface and the transfer size used on it.
pub struct DfuConnection {
    interface: nusb::Interface,
    xfer_size: u16,
}

/// An upload in progress: the connection, the number of bytes to read, and the next block.
pub struct DfuUpload {
    connection: DfuConnection,
    length: u32,
    block_nr: u16,
}

/// A download in progress: the connection and the pages to erase first.
pub struct DfuDownload {
    connection: DfuConnection,
    erase_pages: Vec<u32>,
}

/// What an upload reads: from which interface, and which bytes.
pub struct UploadPlan {
    pub interface: u8,
    pub alt_setting: u8,
    pub start_address: u32,
    pub end_address: u32,
    pub length: u32,
}

/// What a download writes: to which interface, and which pages it erases first.
pub struct DownloadPlan {
    pub interface: u8,
    pub alt_setting: u8,
    pub erase_pages: Vec<u32>,
}

/// `m` summarises `seg`: same bounds and page size, and its permission bits.
pub open spec fn segment_summary(m: MemorySegment, seg: DfuMemSegment) -> bool {
    &&& m.start_addr == seg.spec_start()
    &&& m.end_addr == seg.spec_end()
    &&& m.page_size == seg.spec_page_size()
    &&& m.readable == (seg.spec_mem_type() & 1 == 1)
    &&& m.writable == (seg.spec_mem_type() & 4 == 4)
    &&& m.erasable == (seg.spec_mem_type() & 2 == 2)
}

impl DfuInterface {
    pub closed spec fn spec_config(&self) -> u8 {
        self.config
    }

    pub closed spec fn spec_interface(&self) -> u8 {
        self.interface
    }

    pub closed spec fn spec_alt_setting(&self) -> u8 {
        self.alt_setting
    }

    pub closed spec fn spec_layout(&self) -> DfuMemory {
        self.layout
    }

    pub open spec fn wf(&self) -> bool {
        self.spec_layout().wf()
    }

    /// The interface whose string descriptor is `descriptor`; `None` where the string is not
    /// a memory layout.
    pub fn new(config: u8, interface: u8, alt_setting: u8, descriptor: &str) -> (r: Option<Self>)
        ensures
            r is Some <==> spec_parse_layout(descriptor@) is Some,
            r is Some ==> r->0.wf() && r->0.spec_config() == config && r->0.spec_interface()
                == interface && r->0.spec_alt_setting() == alt_setting && spec_parse_layout(
                descriptor@,
            ) == Some((r->0.spec_layout().name@, r->0.spec_layout().segs())),
    {
        match parse_memory_layout(descriptor) {
            Some(layout) => Some(DfuInterface { config, interface, alt_setting, layout }),
            None => None,
        }
    }

    pub fn config(&self) -> (r: u8)
        ensures
            r == self.spec_config(),
    {
        self.config
    }

    pub fn interface(&self) -> (r: u8)
        ensures
            r == self.spec_interface(),
    {
        self.interface
    }

    pub fn alt_setting(&self) -> (r: u8)
        ensures
            r == self.spec_alt_setting(),
    {
        self.alt_setting
    }

    pub fn layout(&self) -> (r: &DfuMemory)
        ensures
            *r == self.spec_layout(),
    {
        &self.layout
    }

    /// Name of the memory.
    pub fn name(&self) -> (r: String)
        ensures
            r@ == self.spec_layout().name@,
    {
        self.layout.name.clone()
    }

    /// Summaries of the segments, in layout order.
    pub fn segments(&self) -> (r: Vec<MemorySegment>)
        ensures
            r@.len() == self.spec_layout().segs().len(),
            forall|i: int|
                0 <= i < r@.len() ==> segment_summary(
                    #[trigger] r@[i],
                    self.spec_layout().segs()[i],
                ),
    {
        let ghost segs = self.layout.segs();
        let mut r: Vec<MemorySegment> = Vec::new();
        r.push(MemorySegment::from_dfu_segment(&self.layout.segments.head));
        let mut i: usize = 0;
        while i < self.layout.segments.tail.len()
            invariant
                segs == self.layout.segs(),
                i <= self.layout.segments.tail@.len(),
                r@.len() == i + 1,
                forall|j: int| 0 <= j < r@.len() ==> segment_summary(#[trigger] r@[j], segs[j]),
            decreases self.layout.segments.tail@.len() - i,
        {
            r.push(MemorySegment::from_dfu_segment(&self.layout.segments.tail[i]));
            i += 1;
        }
        r
    }

    pub fn find_segments(&self, start_address: u32, end_address: u32) -> (r: Vec<DfuMemSegment>)
        requires
            self.wf(),
        ensures
            r@ == overlapping(self.spec_layout().segs(), start_address, end_address),
    {
        self.layout.find_segments(start_address, end_address)
    }

    /// The overlapping segments, where they cover `[start_address, end_address]`.
    fn segments_serving(&self, start_address: u32, end_address: u32) -> (r: Option<
        DfuInterfaceSegments,
    >)
        requires
            self.wf(),
        ensures
            r is Some <==> serves(*self, start_address, end_address),
            r is Some ==> r->0.spec_interface() == self.spec_interface() && r->0.spec_alt_setting()
                == self.spec_alt_setting() && r->0.segs() == overlapping(
                self.spec_layout().segs(),
                start_address,
                end_address,
            ),
    {
        reveal(serves);
        let mut segments = self.find_segments(start_address, end_address);
        let n = segments.len();
        if n > 0 && start_address >= segments[0].start_addr() && end_address < segments[n
            - 1].end_addr() {
            let ghost all = segments@;
            let head = segments.remove(0);
            let found = DfuInterfaceSegments {
                interface: self.interface,
                alt_setting: self.alt_setting,
                segments: NonEmpty { head, tail: segments },
            };
            assert(found.segs() == all);
            Some(found)
        } else {
            None
        }
    }

    pub fn get_erase_pages(&self, start_addr: u32, end_addr: u32) -> (r: Vec<u32>)
        requires
            self.wf(),
            start_addr <= end_addr,
        ensures
            r@ == erase_plan(self.spec_layout().segs(), start_addr, end_addr),
            forall|i: int, j: int| 0 <= i < j < r@.len() ==> #[trigger] r@[i] < #[trigger] r@[j],
            forall|i: int|
                0 <= i < r@.len() ==> on_page_boundary(self.spec_layout().segs(), #[trigger] r@[i]),
    {
        self.layout.get_erase_pages(start_addr, end_addr)
    }
}

/// The segments of `intf` that overlap `[start, end]` cover the whole range: the first starts
/// at or below `start` and the last ends above `end`.
#[verifier::opaque]
pub open spec fn serves(intf: DfuInterface, start: u32, end: u32) -> bool {
    let segs = overlapping(intf.spec_layout().segs(), start, end);
    segs.len() > 0 && segs[0].spec_start() <= start && end < segs.last().spec_end()
}

/// Interface `i` is the first of `ifs` that serves `[start, end]`.
pub open spec fn first_serving(ifs: Seq<DfuInterface>, i: int, start: u32, end: u32) -> bool {
    &&& 0 <= i < ifs.len()
    &&& serves(ifs[i], start, end)
    &&& forall|j: int| 0 <= j < i ==> !serves(#[trigger] ifs[j], start, end)
}

/// A given length is non-zero and ends within 32 bits.
pub open spec fn length_fits(start: u32, length: Option<u32>) -> bool {
    match length {
        Some(l) => l > 0 && start + l - 1 <= u32::MAX,
        None => true,
    }
}

/// The range that picks the interface of an upload: the whole range, or its start alone.
pub open spec fn selection_end(start: u32, length: Option<u32>) -> u32 {
    match length {
        Some(l) => (start + l - 1) as u32,
        None => start,
    }
}

/// Last address an upload reads: from the length, or the last address of the memory of
/// `intf` (the end of its last segment, less one).
pub open spec fn upload_end(intf: DfuInterface, start: u32, length: Option<u32>) -> int {
    match length {
        Some(l) => start + l - 1,
        None => intf.spec_layout().segs().last().spec_end() - 1,
    }
}

proof fn lemma_first_serving_unique(ifs: Seq<DfuInterface>, start: u32, end: u32)
    ensures
        forall|i: int, j: int|
            first_serving(ifs, i, start, end) && first_serving(ifs, j, start, end) ==> i == j,
{
    assert forall|i: int, j: int|
        first_serving(ifs, i, start, end) && first_serving(ifs, j, start, end) implies i == j by {
        if i < j {
            assert(!serves(ifs[i], start, end));
        } else if j < i {
            assert(!serves(ifs[j], start, end));
        }
    }
}

impl DfuInterfaceSegments {
    pub closed spec fn spec_interface(&self) -> u8 {
        self.interface
    }

    pub closed spec fn spec_alt_setting(&self) -> u8 {
        self.alt_setting
    }

    pub closed spec fn segs(&self) -> Seq<DfuMemSegment> {
        seq![self.segments.head] + self.segments.tail@
    }

    pub fn interface(&self) -> (r: u8)
        ensures
            r == self.spec_interface(),
    {
        self.interface
    }

    pub fn alt_setting(&self) -> (r: u8)
        ensures
            r == self.spec_alt_setting(),
    {
        self.alt_setting
    }

    pub fn segments(&self) -> (r: &NonEmpty<DfuMemSegment>)
        ensures
            seq![r.head] + r.tail@ == self.segs(),
    {
        &self.segments
    }
}

impl DfuDevice {
    pub closed spec fn spec_interfaces(&self) -> Seq<DfuInterface> {
        self.interfaces@
    }

    pub open spec fn wf(&self) -> bool {
        interfaces_wf(self.spec_interfaces())
    }

    /// A device with these interfaces; `None` where there is none.
    pub fn new(dev: nusb::DeviceInfo, interfaces: Vec<DfuInterface>) -> (r: Option<Self>)
        requires
            forall|i: int| 0 <= i < interfaces@.len() ==> (#[trigger] interfaces@[i]).wf(),
        ensures
            r is Some <==> interfaces@.len() > 0,
            r is Some ==> r->0.wf() && r->0.spec_interfaces() == interfaces@,
    {
        if interfaces.len() == 0 {
            None
        } else {
            Some(DfuDevice { dev, interfaces })
        }
    }

    pub fn device_info(&self) -> &nusb::DeviceInfo {
        &self.dev
    }

    pub fn vendor_id(&self) -> u16 {
        self.dev.vendor_id()
    }

    pub fn product_id(&self) -> u16 {
        self.dev.product_id()
    }

    /// DFU interfaces and alternate settings combined
    pub fn interfaces(&self) -> (r: &Vec<DfuInterface>)
        ensures
            r@ == self.spec_interfaces(),
    {
        &self.interfaces
    }

    /// The first interface whose overlapping segments cover `[start_address, end_address]`,
    /// with those segments; `NoMemorySegments` where no interface does.
    pub fn find_interface_segments(&self, start_address: u32, end_address: u32) -> (r: Result<
        DfuInterfaceSegments,
        DfuError,
    >)
        requires
            self.wf(),
        ensures
            selected(self.spec_interfaces(), start_address, end_address, r),
    {
        select_interface_segments(&self.interfaces, start_address, end_address)
    }

    /// The segments of the first interface with number `interface`.
    pub fn interface_segments(&self, interface: u8) -> (r: Option<&DfuMemory>)
        requires
            self.wf(),
        ensures
            r is Some <==> exists|i: int|
                0 <= i < self.spec_interfaces().len() && (#[trigger] self.spec_interfaces()[i]).spec_interface()
                    == interface,
            r is Some ==> exists|i: int|
                0 <= i < self.spec_interfaces().len() && (#[trigger] self.spec_interfaces()[i]).spec_interface()
                    == interface && *r->0 == self.spec_interfaces()[i].spec_layout() && forall|j: int|
                    0 <= j < i ==> (#[trigger] self.spec_interfaces()[j]).spec_interface() != interface,
    {
        let mut i: usize = 0;
        while i < self.interfaces.len()
            invariant
                i <= self.interfaces@.len(),
                forall|j: int|
                    0 <= j < i ==> (#[trigger] self.spec_interfaces()[j]).spec_interface() != interface,
            decreases self.interfaces@.len() - i,
        {
            if self.interfaces[i].interface == interface {
                assert(self.spec_interfaces()[i as int].spec_interface() == interface);
                return Some(&self.interfaces[i].layout);
            }
            i += 1;
        }
        None
    }

    /// Base address of the first interface's first segment.
    pub fn get_default_start_address(&self) -> (r: u32)
        requires
            self.wf(),
        ensures
            r == self.spec_interfaces()[0].spec_layout().segs()[0].spec_start(),
    {
        default_start_address(&self.interfaces)
    }
}

/// `r` is the choice of interface and segments for `[start, end]`: the first interface that
/// serves the range, with its overlapping segments; `NoMemorySegments` where none does.
pub open spec fn selected(
    ifs: Seq<DfuInterface>,
    start: u32,
    end: u32,
    r: Result<DfuInterfaceSegments, DfuError>,
) -> bool {
    match r {
        Ok(found) => exists|i: int|
            #[trigger] first_serving(ifs, i, start, end) && found.spec_interface()
                == ifs[i].spec_interface() && found.spec_alt_setting() == ifs[i].spec_alt_setting()
                && found.segs() == overlapping(ifs[i].spec_layout().segs(), start, end),
        Err(e) => e == DfuError::NoMemorySegments && forall|i: int|
            0 <= i < ifs.len() ==> !serves(#[trigger] ifs[i], start, end),
    }
}

/// At least one interface, each with a well-formed layout.
pub open spec fn interfaces_wf(ifs: Seq<DfuInterface>) -> bool {
    &&& ifs.len() > 0
    &&& forall|i: int| 0 <= i < ifs.len() ==> (#[trigger] ifs[i]).wf()
}

/// The first interface whose overlapping segments cover `[start_address, end_address]`,
/// with those segments; `NoMemorySegments` where no interface does.
pub fn select_interface_segments(
    interfaces: &Vec<DfuInterface>,
    start_address: u32,
    end_address: u32,
) -> (r: Result<DfuInterfaceSegments, DfuError>)
    requires
        interfaces_wf(interfaces@),
    ensures
        selected(interfaces@, start_address, end_address, r),
{
    let mut i: usize = 0;
    while i < interfaces.len()
        invariant
            interfaces_wf(interfaces@),
            i <= interfaces@.len(),
            forall|j: int|
                0 <= j < i ==> !serves(#[trigger] interfaces@[j], start_address, end_address),
        decreases interfaces@.len() - i,
    {
        let intf = &interfaces[i];
        assert(intf.wf());
        if let Some(found) = intf.segments_serving(start_address, end_address) {
            assert(first_serving(interfaces@, i as int, start_address, end_address));
            return Ok(found);
        }
        i += 1;
    }
    Err(DfuError::NoMemorySegments)
}

/// Base address of the first interface's first segment.
pub fn default_start_address(interfaces: &Vec<DfuInterface>) -> (r: u32)
    requires
        interfaces_wf(interfaces@),
    ensures
        r == interfaces@[0].spec_layout().segs()[0].spec_start(),
{
    interfaces[0].layout.segments.head.start_addr()
}

/// `start`, or the default start address.
pub open spec fn upload_start(ifs: Seq<DfuInterface>, start: Option<u32>) -> u32 {
    match start {
        Some(a) => a,
        None => ifs[0].spec_layout().segs()[0].spec_start(),
    }
}

/// What to read for an upload from `start` (default: the default start address) of
/// `length` bytes (default: up to the end of the last segment that holds `start`). Fails
/// with `NoMemorySegments` where the length is zero or runs past 2^32, where no interface
/// serves the range, or where nothing is left to read.
pub fn plan_upload(
    interfaces: &Vec<DfuInterface>,
    start: Option<u32>,
    length: Option<u32>,
) -> (r: Result<UploadPlan, DfuError>)
    requires
        interfaces_wf(interfaces@),
    ensures
        r is Ok <==> length_fits(upload_start(interfaces@, start), length) && exists|i: int|
            first_serving(
                interfaces@,
                i,
                upload_start(interfaces@, start),
                selection_end(upload_start(interfaces@, start), length),
            ) && upload_end(interfaces@[i], upload_start(interfaces@, start), length)
                >= upload_start(interfaces@, start),
        r is Ok ==> exists|i: int|
            first_serving(
                interfaces@,
                i,
                upload_start(interfaces@, start),
                selection_end(upload_start(interfaces@, start), length),
            ) && r->Ok_0.interface == interfaces@[i].spec_interface()
                && r->Ok_0.alt_setting == interfaces@[i].spec_alt_setting()
                && r->Ok_0.start_address == upload_start(interfaces@, start) && r->Ok_0.end_address
                == upload_end(interfaces@[i], upload_start(interfaces@, start), length)
                && r->Ok_0.length == r->Ok_0.end_address - r->Ok_0.start_address + 1,
        r is Err ==> r == Err::<UploadPlan, DfuError>(DfuError::NoMemorySegments),
{
    let s = match start {
        Some(a) => a,
        None => default_start_address(interfaces),
    };
    let e = match length {
        Some(l) => {
            if l == 0 || l - 1 > u32::MAX - s {
                return Err(DfuError::NoMemorySegments);
            }
            s + (l - 1)
        },
        None => s,
    };
    assert(e == selection_end(s, length));
    match first_serving_index(interfaces, s, e) {
        Some(i) => {
            let intf = &interfaces[i];
            proof {
                lemma_first_serving_unique(interfaces@, s, e);
            }
            let end_address = match length {
                Some(_) => e,
                None => {
                    let segments = &intf.layout.segments;
                    let last = if segments.tail.len() > 0 {
                        segments.tail[segments.tail.len() - 1]
                    } else {
                        segments.head
                    };
                    assert(last == intf.spec_layout().segs().last());
                    if last.end_addr() <= s {
                        return Err(DfuError::NoMemorySegments);
                    }
                    last.end_addr() - 1
                },
            };
            assert(end_address == upload_end(interfaces@[i as int], s, length));
            assert(length_fits(s, length));
            assert(s == upload_start(interfaces@, start));
            Ok(
                UploadPlan {
                    interface: intf.interface,
                    alt_setting: intf.alt_setting,
                    start_address: s,
                    end_address,
                    length: end_address - s + 1,
                },
            )
        },
        None => Err(DfuError::NoMemorySegments),
    }
}

/// The first interface that serves `[start_address, end_address]`.
fn first_serving_index(
    interfaces: &Vec<DfuInterface>,
    start_address: u32,
    end_address: u32,
) -> (r: Option<usize>)
    requires
        interfaces_wf(interfaces@),
    ensures
        r is Some <==> exists|i: int|
            first_serving(interfaces@, i, start_address, end_address),
        r is Some ==> first_serving(
            interfaces@,
            r->0 as int,
            start_address,
            end_address,
        ),
{
    let mut i: usize = 0;
    while i < interfaces.len()
        invariant
            interfaces_wf(interfaces@),
            i <= interfaces@.len(),
            forall|j: int|
                0 <= j < i ==> !serves(#[trigger] interfaces@[j], start_address, end_address),
        decreases interfaces@.len() - i,
    {
        assert(interfaces@[i as int].wf());
        if interfaces[i].segments_serving(start_address, end_address).is_some() {
            assert(first_serving(interfaces@, i as int, start_address, end_address));
            return Some(i);
        }
        i += 1;
    }
    assert forall|i: int| !first_serving(interfaces@, i, start_address, end_address) by {
    }
    None
}

/// What a download of `len` bytes at `start` (default: the default start address) needs:
/// the first interface that serves the range, and the pages it erases there. Fails with
/// `NoMemorySegments` where `len` is zero or runs past 2^32, or where no interface serves
/// the range.
pub fn plan_download(
    interfaces: &Vec<DfuInterface>,
    start: Option<u32>,
    len: usize,
) -> (r: Result<DownloadPlan, DfuError>)
    requires
        interfaces_wf(interfaces@),
    ensures
        r is Ok <==> len > 0 && upload_start(interfaces@, start) + len - 1 <= u32::MAX && exists|i: int|
            #[trigger] first_serving(
                interfaces@,
                i,
                upload_start(interfaces@, start),
                (upload_start(interfaces@, start) + len - 1) as u32,
            ),
        r is Ok ==> exists|i: int|
            #[trigger] first_serving(
                interfaces@,
                i,
                upload_start(interfaces@, start),
                (upload_start(interfaces@, start) + len - 1) as u32,
            ) && r->Ok_0.interface == interfaces@[i].spec_interface()
                && r->Ok_0.alt_setting == interfaces@[i].spec_alt_setting()
                && r->Ok_0.erase_pages@ == erase_plan(
                interfaces@[i].spec_layout().segs(),
                upload_start(interfaces@, start),
                (upload_start(interfaces@, start) + len - 1) as u32,
            ),
        r is Err ==> r == Err::<DownloadPlan, DfuError>(DfuError::NoMemorySegments),
{
    let s = match start {
        Some(a) => a,
        None => default_start_address(interfaces),
    };
    if len == 0 || len - 1 > (u32::MAX - s) as usize {
        return Err(DfuError::NoMemorySegments);
    }
    let e = s + (len - 1) as u32;
    assert(s == upload_start(interfaces@, start));
    assert(e == (upload_start(interfaces@, start) + len - 1) as u32);
    match first_serving_index(interfaces, s, e) {
        Some(i) => {
            let intf = &interfaces[i];
            assert(intf.wf());
            let erase_pages = intf.get_erase_pages(s, e);
            Ok(DownloadPlan { interface: intf.interface, alt_setting: intf.alt_setting, erase_pages })
        },
        None => Err(DfuError::NoMemorySegments),
    }
}

/// An ID filter: none, or the ID itself.
pub open spec fn spec_id_matches(filter: Option<u16>, id: u16) -> bool {
    match filter {
        Some(f) => f == id,
        None => true,
    }
}

pub fn id_matches(filter: Option<u16>, id: u16) -> (r: bool)
    ensures
        r == spec_id_matches(filter, id),
{
    match filter {
        Some(f) => f == id,
        None => true,
    }
}

impl DfuDeviceFilter {
    pub closed spec fn spec_vid(&self) -> Option<u16> {
        self.vid
    }

    pub closed spec fn spec_pid(&self) -> Option<u16> {
        self.pid
    }

    /// A filter that every device passes.
    pub fn empty_filter() -> (r: Box<DfuDeviceFilter>)
        ensures
            r.spec_vid() is None,
            r.spec_pid() is None,
    {
        Box::new(DfuDeviceFilter { vid: None, pid: None })
    }

    pub fn with_vendor_id(&mut self, vid: u16)
        ensures
            final(self).spec_vid() == Some(vid),
            final(self).spec_pid() == old(self).spec_pid(),
    {
        self.vid = Some(vid);
    }

    pub fn with_product_id(&mut self, pid: u16)
        ensures
            final(self).spec_vid() == old(self).spec_vid(),
            final(self).spec_pid() == Some(pid),
    {
        self.pid = Some(pid);
    }

    pub fn vendor_id(&self) -> (r: Option<u16>)
        ensures
            r == self.spec_vid(),
    {
        self.vid
    }

    pub fn product_id(&self) -> (r: Option<u16>)
        ensures
            r == self.spec_pid(),
    {
        self.pid
    }

    /// A device with these IDs passes the filter.
    pub fn matches(&self, vendor_id: u16, product_id: u16) -> (r: bool)
        ensures
            r == (spec_id_matches(self.spec_vid(), vendor_id) && spec_id_matches(
                self.spec_pid(),
                product_id,
            )),
    {
        id_matches(self.vid, vendor_id) && id_matches(self.pid, product_id)
    }
}

impl DfuConnection {
    /// The transfer size is never zero.
    #[verifier::type_invariant]
    spec fn inv(&self) -> bool {
        self.xfer_size > 0
    }

    pub closed spec fn spec_transfer_size(&self) -> u16 {
        self.xfer_size
    }

    /// A connection on a claimed interface; a transfer size of zero stands for the default.
    pub fn new(interface: nusb::Interface, xfer_size: u16) -> (r: Self)
        ensures
            r.spec_transfer_size() == if xfer_size > 0 {
                xfer_size
            } else {
                DEFAULT_TRANSFER_SIZE
            },
    {
        DfuConnection { interface, xfer_size: effective_transfer_size(xfer_size) }
    }

    pub fn transfer_size(&self) -> (r: u16)
        ensures
            r == self.spec_transfer_size(),
            r > 0,
    {
        proof {
            use_type_invariant(self);
        }
        self.xfer_size
    }

    /// The claimed interface.
    pub fn interface(&self) -> &nusb::Interface {
        &self.interface
    }
}

impl DfuUpload {
    pub closed spec fn spec_length(&self) -> u32 {
        self.length
    }

    pub closed spec fn spec_block_nr(&self) -> u16 {
        self.block_nr
    }

    pub closed spec fn spec_connection(&self) -> DfuConnection {
        self.connection
    }

    /// An upload of `length` bytes, starting with block 0.
    pub fn new(connection: DfuConnection, length: u32) -> (r: Self)
        ensures
            r.spec_length() == length,
            r.spec_block_nr() == 0,
            r.spec_connection() == connection,
    {
        DfuUpload { connection, length, block_nr: 0 }
    }

    pub fn get_length(&self) -> (r: u32)
        ensures
            r == self.spec_length(),
    {
        self.length
    }

    pub fn get_transfer_size(&self) -> (r: u16)
        ensures
            r == self.spec_connection().spec_transfer_size(),
    {
        self.connection.transfer_size()
    }

    pub fn connection(&self) -> (r: &DfuConnection)
        ensures
            *r == self.spec_connection(),
    {
        &self.connection
    }

    /// `wBlockNum` of the next upload request, or `None` once block numbers run out.
    pub fn block_value(&self) -> (r: Option<u16>)
        ensures
            self.spec_block_nr() <= u16::MAX - 2 ==> r == Some((self.spec_block_nr() + 2) as u16),
            self.spec_block_nr() > u16::MAX - 2 ==> r is None,
    {
        if self.block_nr <= u16::MAX - 2 {
            Some(self.block_nr + 2)
        } else {
            None
        }
    }

    /// Moves on to the next block after a successful upload request.
    pub fn advance(&mut self)
        requires
            old(self).spec_block_nr() < u16::MAX,
        ensures
            final(self).spec_block_nr() == old(self).spec_block_nr() + 1,
            final(self).spec_length() == old(self).spec_length(),
            final(self).spec_connection() == old(self).spec_connection(),
    {
        self.block_nr = self.block_nr + 1;
    }

    /// Bytes to ask for next, once `done` bytes have come: what is left, at most one transfer.
    pub fn chunk_length(&self, done: u32) -> (r: u16)
        requires
            done <= self.spec_length(),
        ensures
            r == if self.spec_length() - done < self.spec_connection().spec_transfer_size() {
                self.spec_length() - done
            } else {
                self.spec_connection().spec_transfer_size() as int
            },
    {
        let left = self.length - done;
        let ts = self.connection.transfer_size();
        if left < ts as u32 {
            left as u16
        } else {
            ts
        }
    }
}

impl DfuDownload {
    pub closed spec fn spec_erase_pages(&self) -> Seq<u32> {
        self.erase_pages@
    }

    pub closed spec fn spec_connection(&self) -> DfuConnection {
        self.connection
    }

    pub fn new(connection: DfuConnection, erase_pages: Vec<u32>) -> (r: Self)
        ensures
            r.spec_erase_pages() == erase_pages@,
            r.spec_connection() == connection,
    {
        DfuDownload { connection, erase_pages }
    }

    pub fn get_erase_pages(&self) -> (r: Vec<u32>)
        ensures
            r@ == self.spec_erase_pages(),
    {
        vstd::slice::slice_to_vec(self.erase_pages.as_slice())
    }

    pub fn get_transfer_size(&self) -> (r: u16)
        ensures
            r == self.spec_connection().spec_transfer_size(),
    {
        self.connection.transfer_size()
    }

    pub fn connection(&self) -> (r: &DfuConnection)
        ensures
            *r == self.spec_connection(),
    {
        &self.connection
    }
}

/// Chunk `k` of a download of `len` bytes at `start` in transfers of `size` bytes: its
/// address, and where it begins and ends in the image.
pub open spec fn spec_chunk(start: u32, len: int, size: int, k: int) -> (u32, int, int) {
    ((start + k * size) as u32, k * size, if (k + 1) * size < len {
        (k + 1) * size
    } else {
        len
    })
}

/// The chunks of a download of `len` bytes at `start`, `size` bytes each but the last.
pub fn download_chunks(start: u32, len: usize, size: u16) -> (r: Vec<(u32, usize, usize)>)
    requires
        size > 0,
        start + len <= 0x1_0000_0000,
    ensures
        r@.len() == len as int / size as int + if len as int % size as int != 0 {
            1int
        } else {
            0int
        },
        forall|k: int|
            0 <= k < r@.len() ==> (#[trigger] r@[k].0, r@[k].1 as int, r@[k].2 as int) == spec_chunk(
                start,
                len as int,
                size as int,
                k,
            ),
{
    let step = size as usize;
    let mut r: Vec<(u32, usize, usize)> = Vec::new();
    let mut from: usize = 0;
    assert(r@.len() * step == 0) by (nonlinear_arith)
        requires
            r@.len() == 0,
    ;
    if len == 0 {
        assert(0int / size as int == 0 && 0int % size as int == 0) by (nonlinear_arith)
            requires
                size > 0,
        ;
    }
    while from < len
        invariant
            step == size,
            size > 0,
            start + len <= 0x1_0000_0000,
            from <= len,
            from < len ==> from == r@.len() * step,
            from == len ==> r@.len() == len as int / size as int + if len as int % size as int != 0 {
                1int
            } else {
                0int
            },
            from < len ==> r@.len() * size < len,
            forall|k: int|
                0 <= k < r@.len() ==> (#[trigger] r@[k].0, r@[k].1 as int, r@[k].2 as int)
                    == spec_chunk(start, len as int, size as int, k),
        decreases len - from,
    {
        let k = r.len();
        let to = if len - from > step {
            from + step
        } else {
            len
        };
        proof {
            assert((k + 1) * size == k * size + size) by (nonlinear_arith);
        }
        r.push((start + from as u32, from, to));
        proof {
            lemma_fundamental_div_mod(len as int, size as int);
            if to == len {
                assert(r@.len() == len as int / size as int + if len as int % size as int != 0 {
                    1int
                } else {
                    0int
                }) by (nonlinear_arith)
                    requires
                        r@.len() == k + 1,
                        k * size < len,
                        len <= k * size + size,
                        len == size * (len as int / size as int) + len as int % size as int,
                        0 <= (len as int % size as int) && (len as int % size as int) < size,
                        size > 0,
                ;
            }
        }
        from = from + (to - from);
    }
    r
}

} // verus!
