//! DFU class requests and the decisions of a DFU connection: status decoding, DfuSe command
//! encoding, the state reset sequence and polling until download-idle.

use vstd::prelude::*;

verus! {

#[verifier::external_type_specification]
#[verifier::external_body]
pub struct ExUsbError(nusb::Error);

#[verifier::external_type_specification]
pub struct ExTransferError(nusb::transfer::TransferError);

pub const DFU_CMD_DETACH: u8 = 0;

pub const DFU_CMD_DOWNLOAD: u8 = 1;

pub const DFU_CMD_UPLOAD: u8 = 2;

pub const DFU_CMD_GETSTATUS: u8 = 3;

pub const DFU_CMD_CLRSTATUS: u8 = 4;

pub const DFU_CMD_GETSTATE: u8 = 5;

pub const DFU_CMD_ABORT: u8 = 6;

/// Length of a `GETSTATUS` reply.
pub const DFU_STATE_LEN: u16 = 6;

pub const DFUSE_CMD_ADDR: u8 = 0x21;

pub const DFUSE_CMD_ERASE: u8 = 0x41;

pub const DFU_STATE_DFU_IDLE: u8 = 0x02;

pub const DFU_STATE_DFU_DOWNLOAD_IDLE: u8 = 0x05;

/// `wBlockNum` of DfuSe commands (set address, erase, leave).
pub const DFUSE_COMMAND_BLOCK: u16 = 0;

/// `wBlockNum` of the first data block.
pub const DFUSE_DATA_BLOCK: u16 = 2;

/// Milliseconds one control transfer may take.
pub const DEFAULT_TIMEOUT_MS: u64 = 5000;

/// Transfer size used where the descriptor gives none.
pub const DEFAULT_TRANSFER_SIZE: u16 = 2048;

/// What can go wrong while talking to a DFU device.
#[derive(Debug)]
pub enum DfuError {
    Usb(nusb::Error),
    Transfer(nusb::transfer::TransferError),
    /// The device reported this non-zero status.
    Status(u8),
    UnalignedAddress,
    InvalidInterface,
    NoMemorySegments,
    Timeout,
}

/// The result that a status byte stands for.
pub open spec fn status_result(status: u8) -> Result<(), DfuError> {
    if status == 0 {
        Ok(())
    } else {
        Err(DfuError::Status(status))
    }
}

/// A decoded `GETSTATUS` reply.
#[derive(Clone, Copy, Debug)]
pub struct DfuStatus {
    status: u8,
    poll_timeout: u32,
    state: u8,
}

impl DfuStatus {
    pub closed spec fn spec_status(&self) -> u8 {
        self.status
    }

    pub closed spec fn spec_poll_timeout(&self) -> u32 {
        self.poll_timeout
    }

    pub closed spec fn spec_state(&self) -> u8 {
        self.state
    }

    /// Decodes `status, poll_timeout (24-bit little-endian), state`; the string index that
    /// follows is not read.
    pub fn from_raw(data: &[u8]) -> (r: Self)
        requires
            data@.len() >= 5,
        ensures
            r.spec_status() == data@[0],
            r.spec_poll_timeout() == data@[1] + data@[2] * 0x100 + data@[3] * 0x1_0000,
            r.spec_state() == data@[4],
            r.spec_poll_timeout() < 0x100_0000,
    {
        DfuStatus {
            status: data[0],
            poll_timeout: data[1] as u32 + (data[2] as u32) * 0x100 + (data[3] as u32) * 0x1_0000,
            state: data[4],
        }
    }

    pub fn status(&self) -> (r: u8)
        ensures
            r == self.spec_status(),
    {
        self.status
    }

    /// Milliseconds the device asks the host to wait before the next request.
    pub fn poll_timeout(&self) -> (r: u32)
        ensures
            r == self.spec_poll_timeout(),
    {
        self.poll_timeout
    }

    pub fn state(&self) -> (r: u8)
        ensures
            r == self.spec_state(),
    {
        self.state
    }

    pub fn ok(&self) -> (r: Result<(), DfuError>)
        ensures
            r == status_result(self.spec_status()),
    {
        self.ret(())
    }

    /// `t` where the status is zero, else the status as an error.
    pub fn ret<T>(&self, t: T) -> (r: Result<T, DfuError>)
        ensures
            r == if self.spec_status() == 0 {
                Ok::<T, DfuError>(t)
            } else {
                Err(DfuError::Status(self.spec_status()))
            },
    {
        if self.status != 0 {
            Err(DfuError::Status(self.status))
        } else {
            Ok(t)
        }
    }

    /// One step of polling after a download request: done once the device is download-idle
    /// (with its status), a timeout once `elapsed_ms` reaches twice the transfer timeout, else
    /// poll again (`None`).
    pub fn poll_outcome(&self, elapsed_ms: u64) -> (r: Option<Result<(), DfuError>>)
        ensures
            self.spec_state() == DFU_STATE_DFU_DOWNLOAD_IDLE ==> r == Some(
                status_result(self.spec_status()),
            ),
            self.spec_state() != DFU_STATE_DFU_DOWNLOAD_IDLE && elapsed_ms >= 2 * DEFAULT_TIMEOUT_MS
                ==> r == Some(Err::<(), DfuError>(DfuError::Timeout)),
            self.spec_state() != DFU_STATE_DFU_DOWNLOAD_IDLE && elapsed_ms < 2 * DEFAULT_TIMEOUT_MS
                ==> r is None,
    {
        if self.state == DFU_STATE_DFU_DOWNLOAD_IDLE {
            Some(self.ok())
        } else if elapsed_ms >= 2 * DEFAULT_TIMEOUT_MS {
            Some(Err(DfuError::Timeout))
        } else {
            None
        }
    }
}

/// Milliseconds to wait for a device to come back after it detached.
pub const RECONNECT_TIMEOUT_MS: u64 = 30_000;

/// One step of waiting for a device to reappear: done once it is `found`, a timeout once
/// `elapsed_ms` reaches 30 s, else look again (`None`).
pub fn reconnect_outcome(found: bool, elapsed_ms: u64) -> (r: Option<Result<(), DfuError>>)
    ensures
        found ==> r == Some(Ok::<(), DfuError>(())),
        !found && elapsed_ms >= RECONNECT_TIMEOUT_MS ==> r == Some(
            Err::<(), DfuError>(DfuError::Timeout),
        ),
        !found && elapsed_ms < RECONNECT_TIMEOUT_MS ==> r is None,
{
    if found {
        Some(Ok(()))
    } else if elapsed_ms >= RECONNECT_TIMEOUT_MS {
        Some(Err(DfuError::Timeout))
    } else {
        None
    }
}

/// Decodes a `GETSTATUS` reply; a reply shorter than six bytes is a protocol fault.
pub fn decode_status(data: &[u8]) -> (r: Result<DfuStatus, DfuError>)
    ensures
        data@.len() >= DFU_STATE_LEN ==> r is Ok && r->Ok_0.spec_status() == data@[0]
            && r->Ok_0.spec_state() == data@[4] && r->Ok_0.spec_poll_timeout() == data@[1] + data@[2]
            * 0x100 + data@[3] * 0x1_0000,
        data@.len() < DFU_STATE_LEN ==> r == Err::<DfuStatus, DfuError>(
            DfuError::Transfer(nusb::transfer::TransferError::Fault),
        ),
{
    if data.len() < DFU_STATE_LEN as usize {
        Err(DfuError::Transfer(nusb::transfer::TransferError::Fault))
    } else {
        Ok(DfuStatus::from_raw(data))
    }
}

/// A DfuSe command byte followed by an address, little-endian.
pub open spec fn spec_dfuse_command(cmd: u8, addr: u32) -> Seq<u8> {
    seq![
        cmd,
        (addr % 0x100) as u8,
        (addr / 0x100 % 0x100) as u8,
        (addr / 0x1_0000 % 0x100) as u8,
        (addr / 0x100_0000) as u8,
    ]
}

fn dfuse_command(cmd: u8, addr: u32) -> (r: Vec<u8>)
    ensures
        r@ == spec_dfuse_command(cmd, addr),
{
    let r = vec![
        cmd,
        (addr % 0x100) as u8,
        (addr / 0x100 % 0x100) as u8,
        (addr / 0x1_0000 % 0x100) as u8,
        (addr / 0x100_0000) as u8,
    ];
    assert(r@ == spec_dfuse_command(cmd, addr));
    r
}

/// Payload of the DfuSe "set address pointer" command.
pub fn set_address_command(addr: u32) -> (r: Vec<u8>)
    ensures
        r@ == spec_dfuse_command(DFUSE_CMD_ADDR, addr),
{
    dfuse_command(DFUSE_CMD_ADDR, addr)
}

/// Payload of the DfuSe "erase page" command.
pub fn erase_command(addr: u32) -> (r: Vec<u8>)
    ensures
        r@ == spec_dfuse_command(DFUSE_CMD_ERASE, addr),
{
    dfuse_command(DFUSE_CMD_ERASE, addr)
}

/// `wBlockNum` of the upload request for the `block_nr`-th block.
pub fn upload_block_value(block_nr: u16) -> (r: u16)
    requires
        block_nr <= u16::MAX - DFUSE_DATA_BLOCK,
    ensures
        r == block_nr + DFUSE_DATA_BLOCK,
{
    DFUSE_DATA_BLOCK + block_nr
}

/// The transfer size of a connection: the descriptor's, or the default where that is zero.
pub fn effective_transfer_size(xfer_size: u16) -> (r: u16)
    ensures
        r == if xfer_size > 0 {
            xfer_size
        } else {
            DEFAULT_TRANSFER_SIZE
        },
{
    if xfer_size > 0 {
        xfer_size
    } else {
        DEFAULT_TRANSFER_SIZE
    }
}

/// Where the state reset sequence stands: after the first status read, after clearing the
/// status, or after an abort.
#[derive(Clone, Copy, PartialEq, Eq, Structural)]
pub enum ResetPhase {
    Started,
    Cleared,
    Aborted,
}

/// What the state reset sequence does next.
pub enum ResetAction {
    /// Send `CLRSTATUS`, then read the status again.
    ClearStatus,
    /// Send `ABORT`, then read the status again.
    Abort,
    /// The sequence is over.
    Finish(Result<(), DfuError>),
}

/// The decision of the state reset sequence on a freshly read status: clear a non-zero status
/// first (once), then abort unless the device is idle (once), then report the final status.
pub fn reset_next(phase: ResetPhase, st: &DfuStatus) -> (r: ResetAction)
    ensures
        phase == ResetPhase::Started && st.spec_status() != 0 ==> r is ClearStatus,
        (phase == ResetPhase::Started && st.spec_status() == 0 || phase == ResetPhase::Cleared)
            && st.spec_state() != DFU_STATE_DFU_IDLE ==> r is Abort,
        (phase == ResetPhase::Started && st.spec_status() == 0 || phase == ResetPhase::Cleared)
            && st.spec_state() == DFU_STATE_DFU_IDLE || phase == ResetPhase::Aborted ==> r
            == ResetAction::Finish(status_result(st.spec_status())),
{
    if phase == ResetPhase::Started && st.status != 0 {
        ResetAction::ClearStatus
    } else if phase != ResetPhase::Aborted && st.state != DFU_STATE_DFU_IDLE {
        ResetAction::Abort
    } else {
        ResetAction::Finish(st.ok())
    }
}

} // verus!
