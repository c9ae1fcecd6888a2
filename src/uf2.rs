//! UF2 block codec: magic validation, block decoding and extension tags.

use vstd::prelude::*;
use vstd::utf8::{decode_utf8, valid_utf8};

verus! {

pub const UF2_BLOCK_SIZE: usize = 512;

pub const UF2_HEADER_SIZE: usize = 32;

/// Room between the header and the trailing magic word.
pub const UF2_MAX_PAYLOAD_SIZE: usize = UF2_BLOCK_SIZE - UF2_HEADER_SIZE - 4;

/// "UF2\n"
pub const UF2_MAGIC_START1: u32 = 0x0a324655;

pub const UF2_MAGIC_START2: u32 = 0x9e5d5157;

pub const UF2_MAGIC_FINAL: u32 = 0x0ab16f30;

/// Offset of the trailing magic word in a block.
pub const UF2_MAGIC_FINAL_OFFSET: usize = UF2_BLOCK_SIZE - 4;

// official extension tags
pub const VERSION_EXTENSION_TAG: u32 = 0x9fc7bc;

pub const DEVICE_EXTENSION_TAG: u32 = 0x650d9d;

/// EdgeTX specific extension
pub const REBOOT_EXTENSION_TAG: u32 = 0xe60835;

/// Block flags word.
pub struct UF2Flags(pub u32);

/// A decoded 512-byte block.
pub struct UF2BlockData {
    pub flags: UF2Flags,
    pub flash_address: u32,
    pub block_nr: u32,
    pub total_blocks: u32,
    /// File size, or board family ID when `FAMILY_ID_PRESENT` is set.
    pub file_size: u32,
    pub payload: Vec<u8>,
    pub extensions: Vec<UF2Extension>,
}

/// One extension entry: a 24-bit tag and its payload.
pub struct UF2Extension {
    pub tag: u32,
    pub payload: Vec<u8>,
}

pub struct UF2DecodeError {
    pub err: String,
}

/// The little-endian `u32` stored at `off` in `s`.
#[verifier::opaque]
pub open spec fn le_u32(s: Seq<u8>, off: int) -> u32 {
    (s[off] as int + s[off + 1] as int * 0x100 + s[off + 2] as int * 0x1_0000 + s[off + 3] as int
        * 0x100_0000) as u32
}

/// `s` holds `magic` at `off`.
pub open spec fn has_magic(s: Seq<u8>, off: int, magic: u32) -> bool {
    off + 4 <= s.len() && le_u32(s, off) == magic
}

pub open spec fn spec_is_uf2_payload(s: Seq<u8>) -> bool {
    has_magic(s, 0, UF2_MAGIC_START1)
}

pub open spec fn spec_is_uf2_block(s: Seq<u8>) -> bool {
    &&& has_magic(s, 0, UF2_MAGIC_START1)
    &&& has_magic(s, 4, UF2_MAGIC_START2)
    &&& has_magic(s, UF2_MAGIC_FINAL_OFFSET as int, UF2_MAGIC_FINAL)
}

/// `n` rounded up to a multiple of four.
pub open spec fn spec_pad32(n: int) -> int {
    if n % 4 > 0 {
        n + 4 - n % 4
    } else {
        n
    }
}

fn extract_u32(data: &[u8], offset: usize) -> (r: u32)
    requires
        offset + 4 <= data@.len(),
    ensures
        r == le_u32(data@, offset as int),
{
    reveal(le_u32);
    data[offset] as u32 + (data[offset + 1] as u32) * 0x100 + (data[offset + 2] as u32) * 0x1_0000
        + (data[offset + 3] as u32) * 0x100_0000
}

fn pad32(n: usize) -> (r: usize)
    requires
        n <= 0x10000,
    ensures
        r == spec_pad32(n as int),
{
    let rem = n % 4;
    if rem > 0 {
        n + 4 - rem
    } else {
        n
    }
}

fn check_magic(magics: &[(usize, u32)], data: &[u8]) -> (r: bool)
    requires
        forall|i: int| 0 <= i < magics@.len() ==> magics@[i].0 <= 0x1_0000,
    ensures
        r == forall|i: int|
            0 <= i < magics@.len() ==> has_magic(data@, #[trigger] magics@[i].0 as int, magics@[i].1),
{
    let mut i: usize = 0;
    while i < magics.len()
        invariant
            i <= magics@.len(),
            forall|i: int| 0 <= i < magics@.len() ==> magics@[i].0 <= 0x1_0000,
            forall|j: int| 0 <= j < i ==> has_magic(data@, #[trigger] magics@[j].0 as int, magics@[j].1),
        decreases magics@.len() - i,
    {
        let (offset, magic) = magics[i];
        if data.len() < offset + 4 || extract_u32(data, offset) != magic {
            return false;
        }
        i += 1;
    }
    true
}

/// Cheap classifier: only the first magic word is checked.
pub fn is_uf2_payload(data: &[u8]) -> (r: bool)
    ensures
        r == spec_is_uf2_payload(data@),
{
    let magics = [(0usize, UF2_MAGIC_START1)];
    let r = check_magic(&magics, data);
    assert(magics@[0].0 == 0);
    r
}

/// All three magic words are in place.
pub fn is_uf2_block(data: &[u8]) -> (r: bool)
    ensures
        r == spec_is_uf2_block(data@),
{
    let magics = [(0usize, UF2_MAGIC_START1), (4, UF2_MAGIC_START2), (UF2_MAGIC_FINAL_OFFSET, UF2_MAGIC_FINAL)];
    let r = check_magic(&magics, data);
    assert(magics@[0].0 == 0 && magics@[1].0 == 4 && magics@[2].0 == 508);
    r
}


/// An extension as a pair of tag and payload.
pub open spec fn ext_view(e: UF2Extension) -> (u32, Seq<u8>) {
    (e.tag, e.payload@)
}

pub open spec fn exts_view(v: Seq<UF2Extension>) -> Seq<(u32, Seq<u8>)> {
    v.map_values(|e: UF2Extension| ext_view(e))
}

/// The extension entries of an extension area, scanned from `off`: a zero header word, a header
/// that does not fit, or an entry that overruns the area ends the scan.
pub open spec fn spec_extensions_from(area: Seq<u8>, off: int) -> Seq<(u32, Seq<u8>)>
    decreases area.len() + 4 - off,
{
    if off < 0 || off + 4 > area.len() {
        seq![]
    } else {
        let hdr = le_u32(area, off);
        let length = hdr as int % 0x100;
        let tag = (hdr as int / 0x100) as u32;
        if hdr == 0 || length < 4 || off + length > area.len() {
            seq![]
        } else {
            seq![(tag, area.subrange(off + 4, off + length))] + spec_extensions_from(
                area,
                off + spec_pad32(length),
            )
        }
    }
}

pub open spec fn flag_set(flags: u32, bit: u32) -> bool {
    flags & bit != 0
}

/// Size field of a block's header.
pub open spec fn spec_payload_size(s: Seq<u8>) -> int {
    le_u32(s, 16) as int
}

/// `s` is a block that decodes: magics in place and a payload that fits.
pub open spec fn spec_decodes(s: Seq<u8>) -> bool {
    spec_is_uf2_block(s) && spec_payload_size(s) <= UF2_MAX_PAYLOAD_SIZE
}

pub open spec fn spec_block_payload(s: Seq<u8>) -> Seq<u8> {
    s.subrange(UF2_HEADER_SIZE as int, UF2_HEADER_SIZE + spec_payload_size(s))
}

/// What lies between the payload and the trailing magic word.
pub open spec fn spec_extension_area(s: Seq<u8>) -> Seq<u8> {
    s.subrange(UF2_HEADER_SIZE + spec_payload_size(s), UF2_MAGIC_FINAL_OFFSET as int)
}

pub open spec fn spec_decode_extensions(flags: u32, area: Seq<u8>) -> Seq<(u32, Seq<u8>)> {
    if flag_set(flags, UF2Flags::EXTENSION_TAGS_PRESENT) {
        spec_extensions_from(area, 0)
    } else {
        seq![]
    }
}

pub open spec fn spec_block_extensions(s: Seq<u8>) -> Seq<(u32, Seq<u8>)> {
    spec_decode_extensions(le_u32(s, 8), spec_extension_area(s))
}

/// The payload of the first extension with `tag`.
pub open spec fn spec_find_extension(exts: Seq<(u32, Seq<u8>)>, tag: u32) -> Option<Seq<u8>>
    decreases exts.len(),
{
    if exts.len() == 0 {
        None
    } else if exts[0].0 == tag {
        Some(exts[0].1)
    } else {
        spec_find_extension(exts.drop_first(), tag)
    }
}

/// The reboot address that a block's extensions carry.
pub open spec fn spec_reboot_address(exts: Seq<(u32, Seq<u8>)>) -> Option<u32> {
    match spec_find_extension(exts, REBOOT_EXTENSION_TAG) {
        Some(p) => if p.len() == 4 {
            Some(le_u32(p, 0))
        } else {
            None
        },
        None => None,
    }
}

/// The text of the first extension with `tag`, where its payload is valid UTF-8.
pub open spec fn spec_extension_string(exts: Seq<(u32, Seq<u8>)>, tag: u32) -> Option<Seq<char>> {
    match spec_find_extension(exts, tag) {
        Some(p) => if valid_utf8(p) {
            Some(decode_utf8(p))
        } else {
            None
        },
        None => None,
    }
}

/// Relies on `String::from_utf8`: it succeeds exactly on valid UTF-8 and then holds the
/// decoded characters.
#[verifier::external_body]
fn utf8_to_string(bytes: &[u8]) -> (r: Option<String>)
    ensures
        r is Some <==> valid_utf8(bytes@),
        r is Some ==> r->0@ == decode_utf8(bytes@),
{
    String::from_utf8(bytes.to_vec()).ok()
}

fn copy_bytes(data: &[u8], from: usize, to: usize) -> (r: Vec<u8>)
    requires
        from <= to <= data@.len(),
    ensures
        r@ == data@.subrange(from as int, to as int),
{
    vstd::slice::slice_to_vec(vstd::slice::slice_subrange(data, from, to))
}

fn decode_extensions(flags: UF2Flags, data: &[u8]) -> (r: Vec<UF2Extension>)
    requires
        data@.len() <= UF2_BLOCK_SIZE,
    ensures
        exts_view(r@) == spec_decode_extensions(flags.0, data@),
{
    let mut offset: usize = 0;
    let mut extensions: Vec<UF2Extension> = Vec::new();
    if flags.extension_tags_present() {
        while offset + 4 <= data.len()
            invariant
                data@.len() <= UF2_BLOCK_SIZE,
                offset <= data@.len() + 3,
                exts_view(extensions@) + spec_extensions_from(data@, offset as int)
                    == spec_extensions_from(data@, 0),
            ensures
                exts_view(extensions@) + spec_extensions_from(data@, offset as int)
                    == spec_extensions_from(data@, 0),
                spec_extensions_from(data@, offset as int) == Seq::<(u32, Seq<u8>)>::empty(),
            decreases data@.len() + 4 - offset,
        {
            let hdr = extract_u32(data, offset);
            let length = (hdr % 0x100) as usize;
            let tag = hdr / 0x100;
            if hdr == 0 || length < 4 || offset + length > data.len() {
                break;
            }
            let ghost before = extensions@;
            extensions.push(UF2Extension { tag, payload: copy_bytes(data, offset + 4, offset + length) });
            proof {
                let e = seq![(tag, data@.subrange(offset + 4, offset + length))];
                assert(exts_view(extensions@) == exts_view(before) + e);
                assert(spec_extensions_from(data@, offset as int) == e + spec_extensions_from(
                    data@,
                    offset + spec_pad32(length as int),
                ));
                assert(exts_view(extensions@) + spec_extensions_from(data@, offset + spec_pad32(length as int))
                    == exts_view(before) + spec_extensions_from(data@, offset as int));
            }
            offset += pad32(length);
        }
        proof {
            assert(exts_view(extensions@) == exts_view(extensions@) + Seq::<(u32, Seq<u8>)>::empty());
        }
    } else {
        assert(exts_view(extensions@) == Seq::<(u32, Seq<u8>)>::empty());
    }
    extensions
}

impl UF2BlockData {
    /// This block is what `s` decodes to.
    pub open spec fn decoded_from(&self, s: Seq<u8>) -> bool {
        &&& self.flags.0 == le_u32(s, 8)
        &&& self.flash_address == le_u32(s, 12)
        &&& self.block_nr == le_u32(s, 20)
        &&& self.total_blocks == le_u32(s, 24)
        &&& self.file_size == le_u32(s, 28)
        &&& self.payload@ == spec_block_payload(s)
        &&& exts_view(self.extensions@) == spec_block_extensions(s)
    }

    pub open spec fn exts(&self) -> Seq<(u32, Seq<u8>)> {
        exts_view(self.extensions@)
    }

    /// Decodes one block: fails when a magic word is missing or the payload size exceeds
    /// `UF2_MAX_PAYLOAD_SIZE`.
    pub fn decode(data: &[u8]) -> (r: Result<UF2BlockData, UF2DecodeError>)
        ensures
            r is Ok <==> spec_decodes(data@),
            r is Ok ==> r->Ok_0.decoded_from(data@),
            !spec_is_uf2_block(data@) ==> r is Err && r->Err_0.err@ == "magic values check failed"@,
            spec_is_uf2_block(data@) && spec_payload_size(data@) > UF2_MAX_PAYLOAD_SIZE ==> r is Err
                && r->Err_0.err@ == "payload size too big"@,
    {
        if !is_uf2_block(data) {
            return Err(UF2DecodeError::new(String::from_str("magic values check failed")));
        }
        assert(data@.len() >= UF2_BLOCK_SIZE);
        let flags = extract_u32(data, 8);
        let payload_size = extract_u32(data, 16) as usize;
        if payload_size > UF2_MAX_PAYLOAD_SIZE {
            return Err(UF2DecodeError::new(String::from_str("payload size too big")));
        }
        let payload = copy_bytes(data, UF2_HEADER_SIZE, UF2_HEADER_SIZE + payload_size);
        let extension_payload = vstd::slice::slice_subrange(
            data,
            UF2_HEADER_SIZE + payload_size,
            UF2_MAGIC_FINAL_OFFSET,
        );
        Ok(
            UF2BlockData {
                flags: UF2Flags(flags),
                flash_address: extract_u32(data, 12),
                block_nr: extract_u32(data, 20),
                total_blocks: extract_u32(data, 24),
                file_size: extract_u32(data, 28),
                payload,
                extensions: decode_extensions(UF2Flags(flags), extension_payload),
            },
        )
    }

    pub fn file_size(&self) -> (r: Option<u32>)
        ensures
            r == if !flag_set(self.flags.0, UF2Flags::FAMILY_ID_PRESENT) {
                Some(self.file_size)
            } else {
                None
            },
    {
        if !self.flags.family_id_present() {
            Some(self.file_size)
        } else {
            None
        }
    }

    pub fn family_id(&self) -> (r: Option<u32>)
        ensures
            r == if flag_set(self.flags.0, UF2Flags::FAMILY_ID_PRESENT) {
                Some(self.file_size)
            } else {
                None
            },
    {
        if self.flags.family_id_present() {
            Some(self.file_size)
        } else {
            None
        }
    }

    /// Not in main flash, and carries a reboot extension.
    pub fn is_reboot_block(&self) -> (r: bool)
        ensures
            r == (flag_set(self.flags.0, UF2Flags::NOT_MAIN_FLASH) && spec_find_extension(
                self.exts(),
                REBOOT_EXTENSION_TAG,
            ) is Some),
    {
        !self.flags.is_main_flash() && self.get_extension(REBOOT_EXTENSION_TAG).is_some()
    }

    pub fn get_device_description(&self) -> (r: Option<String>)
        ensures
            r is Some == spec_extension_string(self.exts(), DEVICE_EXTENSION_TAG) is Some,
            r is Some ==> r->0@ == spec_extension_string(self.exts(), DEVICE_EXTENSION_TAG)->0,
    {
        self.get_extension_string(DEVICE_EXTENSION_TAG)
    }

    pub fn get_version_description(&self) -> (r: Option<String>)
        ensures
            r is Some == spec_extension_string(self.exts(), VERSION_EXTENSION_TAG) is Some,
            r is Some ==> r->0@ == spec_extension_string(self.exts(), VERSION_EXTENSION_TAG)->0,
    {
        self.get_extension_string(VERSION_EXTENSION_TAG)
    }

    /// The four payload bytes of the reboot extension, read little-endian.
    pub fn get_reboot_address(&self) -> (r: Option<u32>)
        ensures
            r == spec_reboot_address(self.exts()),
    {
        match self.get_extension(REBOOT_EXTENSION_TAG) {
            Some(ext) => {
                if ext.payload.len() == 4 {
                    Some(extract_u32(ext.payload.as_slice(), 0))
                } else {
                    None
                }
            },
            None => None,
        }
    }

    fn get_extension_string(&self, tag: u32) -> (r: Option<String>)
        ensures
            r is Some == spec_extension_string(self.exts(), tag) is Some,
            r is Some ==> r->0@ == spec_extension_string(self.exts(), tag)->0,
    {
        match self.get_extension(tag) {
            Some(ext) => utf8_to_string(ext.payload.as_slice()),
            None => None,
        }
    }

    fn get_extension(&self, tag: u32) -> (r: Option<&UF2Extension>)
        ensures
            r is Some == spec_find_extension(self.exts(), tag) is Some,
            r is Some ==> r->0.tag == tag && spec_find_extension(self.exts(), tag) == Some(
                r->0.payload@,
            ),
    {
        let ghost all = self.exts();
        assert(all.subrange(0, all.len() as int) == all);
        let mut i: usize = 0;
        while i < self.extensions.len()
            invariant
                i <= self.extensions@.len(),
                all == self.exts(),
                spec_find_extension(all.subrange(i as int, all.len() as int), tag)
                    == spec_find_extension(all, tag),
            decreases self.extensions@.len() - i,
        {
            let ghost rest = all.subrange(i as int, all.len() as int);
            assert(rest[0] == ext_view(self.extensions@[i as int]));
            if self.extensions[i].tag == tag {
                return Some(&self.extensions[i]);
            }
            assert(rest.drop_first() == all.subrange(i + 1, all.len() as int));
            i += 1;
        }
        assert(all.subrange(i as int, all.len() as int).len() == 0);
        None
    }
}

impl UF2DecodeError {
    pub fn new(err: String) -> (r: Self)
        ensures
            r.err == err,
    {
        UF2DecodeError { err }
    }
}

impl UF2Flags {
    pub const NOT_MAIN_FLASH: u32 = 0x00000001;

    pub const FILE_CONTAINER: u32 = 0x00001000;

    pub const FAMILY_ID_PRESENT: u32 = 0x00002000;

    pub const MD5_CHECKSUM_PRESENT: u32 = 0x00004000;

    pub const EXTENSION_TAGS_PRESENT: u32 = 0x00008000;

    pub fn is_main_flash(&self) -> (r: bool)
        ensures
            r == !flag_set(self.0, Self::NOT_MAIN_FLASH),
    {
        self.0 & Self::NOT_MAIN_FLASH == 0
    }

    pub fn file_container(&self) -> (r: bool)
        ensures
            r == flag_set(self.0, Self::FILE_CONTAINER),
    {
        self.0 & Self::FILE_CONTAINER != 0
    }

    pub fn family_id_present(&self) -> (r: bool)
        ensures
            r == flag_set(self.0, Self::FAMILY_ID_PRESENT),
    {
        self.0 & Self::FAMILY_ID_PRESENT != 0
    }

    pub fn md5_checksum_present(&self) -> (r: bool)
        ensures
            r == flag_set(self.0, Self::MD5_CHECKSUM_PRESENT),
    {
        self.0 & Self::MD5_CHECKSUM_PRESENT != 0
    }

    pub fn extension_tags_present(&self) -> (r: bool)
        ensures
            r == flag_set(self.0, Self::EXTENSION_TAGS_PRESENT),
    {
        self.0 & Self::EXTENSION_TAGS_PRESENT != 0
    }
}

} // verus!
