//! The DFU functional descriptor.

use vstd::prelude::*;

verus! {

pub const DFU_DESC_TYPE: u8 = 0x21;

pub const DFU_DESC_LEN: usize = 9;

pub const DFUSE_VERSION_NUMBER: u16 = 0x11A;

/// The little-endian `u16` at `off`.
pub open spec fn le_u16(s: Seq<u8>, off: int) -> u16 {
    (s[off] as int + s[off + 1] as int * 0x100) as u16
}

/// DFU functional descriptor: attributes, detach timeout, transfer size and DFU version.
pub struct DfuDescriptor {
    attributes: u8,
    detach_timeout: u16,
    transfer_size: u16,
    dfu_version: u16,
}

/// `desc` is a DFU functional descriptor: type `0x21`, length 9.
pub open spec fn spec_is_dfu_descriptor(desc: Seq<u8>) -> bool {
    desc.len() >= DFU_DESC_LEN && desc[0] as int == DFU_DESC_LEN && desc[1] == DFU_DESC_TYPE
}

impl DfuDescriptor {
    pub const BIT_CAN_DNLOAD: u8 = 1;

    pub const BIT_CAN_UPLOAD: u8 = 2;

    pub const BIT_MANIFESTATION_TOLERANT: u8 = 4;

    pub const BIT_WILL_DETACH: u8 = 8;

    pub closed spec fn spec_attributes(&self) -> u8 {
        self.attributes
    }

    pub closed spec fn spec_detach_timeout(&self) -> u16 {
        self.detach_timeout
    }

    pub closed spec fn spec_transfer_size(&self) -> u16 {
        self.transfer_size
    }

    pub closed spec fn spec_dfu_version(&self) -> u16 {
        self.dfu_version
    }

    /// Decodes the bytes of a functional descriptor.
    pub fn new(raw_desc: &[u8]) -> (r: Self)
        requires
            raw_desc@.len() >= DFU_DESC_LEN,
        ensures
            r.spec_attributes() == raw_desc@[2],
            r.spec_detach_timeout() == le_u16(raw_desc@, 3),
            r.spec_transfer_size() == le_u16(raw_desc@, 5),
            r.spec_dfu_version() == le_u16(raw_desc@, 7),
    {
        Self {
            attributes: raw_desc[2],
            detach_timeout: raw_desc[3] as u16 + raw_desc[4] as u16 * 0x100,
            transfer_size: raw_desc[5] as u16 + raw_desc[6] as u16 * 0x100,
            dfu_version: raw_desc[7] as u16 + raw_desc[8] as u16 * 0x100,
        }
    }

    /// Download capable (`bitCanDnload`)
    pub fn can_download(&self) -> (r: bool)
        ensures
            r == (self.spec_attributes() & Self::BIT_CAN_DNLOAD != 0),
    {
        self.attributes & Self::BIT_CAN_DNLOAD != 0
    }

    /// Upload capable (`bitCanUpload`)
    pub fn can_upload(&self) -> (r: bool)
        ensures
            r == (self.spec_attributes() & Self::BIT_CAN_UPLOAD != 0),
    {
        self.attributes & Self::BIT_CAN_UPLOAD != 0
    }

    /// Device is able to communicate via USB after the manifestation phase
    /// (`bitManifestationTolerant`)
    pub fn manifestation_tolerant(&self) -> (r: bool)
        ensures
            r == (self.spec_attributes() & Self::BIT_MANIFESTATION_TOLERANT != 0),
    {
        self.attributes & Self::BIT_MANIFESTATION_TOLERANT != 0
    }

    /// Device detaches and re-attaches by itself on `DFU_DETACH` (`bitWillDetach`)
    pub fn will_detach(&self) -> (r: bool)
        ensures
            r == (self.spec_attributes() & Self::BIT_WILL_DETACH != 0),
    {
        self.attributes & Self::BIT_WILL_DETACH != 0
    }

    /// Milliseconds the device waits for a reset after `DFU_DETACH` (`wDetachTimeout`)
    pub fn detach_timeout(&self) -> (r: u16)
        ensures
            r == self.spec_detach_timeout(),
    {
        self.detach_timeout
    }

    /// Largest payload of one control transfer (`wTransferSize`)
    pub fn transfer_size(&self) -> (r: u16)
        ensures
            r == self.spec_transfer_size(),
    {
        self.transfer_size
    }

    /// DFU specification release (`bcdDFUVersion`)
    pub fn dfu_version(&self) -> (r: u16)
        ensures
            r == self.spec_dfu_version(),
    {
        self.dfu_version
    }

    /// The device speaks the DfuSe extensions.
    pub fn is_dfuse(&self) -> (r: bool)
        ensures
            r == (self.spec_dfu_version() == DFUSE_VERSION_NUMBER),
    {
        self.dfu_version == DFUSE_VERSION_NUMBER
    }
}

impl Default for DfuDescriptor {
    /// All fields zero, version 0.
    fn default() -> (r: Self)
        ensures
            r.spec_attributes() == 0,
            r.spec_detach_timeout() == 0,
            r.spec_transfer_size() == 0,
            r.spec_dfu_version() == 0,
    {
        DfuDescriptor { attributes: 0, detach_timeout: 0, transfer_size: 0, dfu_version: 0 }
    }
}

pub fn is_dfu_descriptor(desc: &[u8]) -> (r: bool)
    ensures
        r == spec_is_dfu_descriptor(desc@),
{
    desc.len() >= DFU_DESC_LEN && desc[0] as usize == DFU_DESC_LEN && desc[1] == DFU_DESC_TYPE
}

/// The first functional descriptor among the descriptors of all alternate settings, decoded;
/// the default descriptor where there is none.
pub fn find_dfu_descriptor(descriptors: &Vec<Vec<u8>>) -> (r: DfuDescriptor)
    ensures
        (exists|i: int|
            0 <= i < descriptors@.len() && spec_is_dfu_descriptor(#[trigger] descriptors@[i]@))
            ==> exists|i: int|
            0 <= i < descriptors@.len() && spec_is_dfu_descriptor(#[trigger] descriptors@[i]@)
                && (forall|j: int| 0 <= j < i ==> !spec_is_dfu_descriptor(#[trigger] descriptors@[j]@))
                && r.spec_attributes() == descriptors@[i]@[2] && r.spec_detach_timeout() == le_u16(
                descriptors@[i]@,
                3,
            ) && r.spec_transfer_size() == le_u16(descriptors@[i]@, 5) && r.spec_dfu_version()
                == le_u16(descriptors@[i]@, 7),
        (forall|i: int|
            0 <= i < descriptors@.len() ==> !spec_is_dfu_descriptor(#[trigger] descriptors@[i]@))
            ==> r.spec_attributes() == 0 && r.spec_detach_timeout() == 0 && r.spec_transfer_size()
            == 0 && r.spec_dfu_version() == 0,
{
    let mut i: usize = 0;
    while i < descriptors.len()
        invariant
            i <= descriptors@.len(),
            forall|j: int| 0 <= j < i ==> !spec_is_dfu_descriptor(#[trigger] descriptors@[j]@),
        decreases descriptors@.len() - i,
    {
        if is_dfu_descriptor(descriptors[i].as_slice()) {
            return DfuDescriptor::new(descriptors[i].as_slice());
        }
        i += 1;
    }
    DfuDescriptor::default()
}

} // verus!
