//! SD host controller: register layout, command encoding, clock set-up and
//! the SD card initialisation sequence as a state machine. The platform
//! layer performs each register access and hands back the card's reply.
use vstd::prelude::*;

verus! {

pub const PS_CMD_INHIBIT: u32 = 1;
pub const PS_DAT_INHIBIT: u32 = 2;
pub const PS_BUFFER_WRITE_ENABLE: u32 = 0x400;
pub const PS_BUFFER_READ_ENABLE: u32 = 0x800;
pub const PS_CARD_INSERTED: u32 = 0x1_0000;
pub const PS_CARD_STATE_STABLE: u32 = 0x2_0000;
pub const CMD_RESP_NONE: u16 = 0;
pub const CMD_RESP_136: u16 = 1;
pub const CMD_RESP_48: u16 = 2;
pub const CMD_RESP_48_BUSY: u16 = 3;
pub const CMD_CRC_ENABLE: u16 = 8;
pub const CMD_INDEX_ENABLE: u16 = 16;
pub const CMD_DATA_PRESENT: u16 = 32;
pub const CMD_GO_IDLE_STATE: u16 = 0;
pub const CMD_ALL_SEND_CID: u16 = 2;
pub const CMD_SEND_RELATIVE_ADDR: u16 = 3;
pub const CMD_SELECT_CARD: u16 = 7;
pub const CMD_SEND_IF_COND: u16 = 8;
pub const CMD_SEND_CSD: u16 = 9;
pub const CMD_SET_BLOCKLEN: u16 = 16;
pub const CMD_READ_SINGLE_BLOCK: u16 = 17;
pub const CMD_READ_MULTIPLE_BLOCK: u16 = 18;
pub const CMD_WRITE_SINGLE_BLOCK: u16 = 24;
pub const CMD_WRITE_MULTIPLE_BLOCK: u16 = 25;
pub const CMD_APP_CMD: u16 = 55;
pub const ACMD_SD_SEND_OP_COND: u16 = 41;
pub const CLK_INTERNAL_ENABLE: u32 = 1;
pub const CLK_STABLE: u32 = 2;
pub const CLK_SD_CLOCK_ENABLE: u32 = 4;
pub const CLK_MAX_DIV: u32 = 0x3FF;
pub const SDHCI_SECTOR_SIZE: usize = 512;
pub const PLIC_PRIO_SDHCI: u32 = 7;
/// The reply that stands for a failed or timed-out command.
pub const CMD_FAILED: u32 = 0xFFFF_FFFF;
/// Attempts at the operating-condition handshake.
pub const OP_COND_RETRIES: u32 = 2000;

/// The controller and card state kept by the driver.
#[derive(Clone, Copy, Debug, PartialEq, Eq, Structural)]
pub struct SdhciDev {
    pub base: usize,
    pub rca: u32,
    pub initialized: bool,
    pub irq: u32,
}

/// The command register for command `cmd_idx`: the index, the response
/// type, the data flag, and CRC / index checking as each command wants.
pub open spec fn spec_command_reg(cmd_idx: u16, resp_type: u16, has_data: bool) -> u16 {
    let base = ((cmd_idx & 0x3F) << 8u16) | resp_type;
    let with_data = if has_data {
        base | CMD_DATA_PRESENT
    } else {
        base
    };
    if cmd_idx == CMD_GO_IDLE_STATE {
        with_data
    } else if cmd_idx == CMD_ALL_SEND_CID || cmd_idx == CMD_SEND_CSD {
        with_data | CMD_CRC_ENABLE
    } else if cmd_idx == CMD_SEND_IF_COND || cmd_idx == CMD_APP_CMD || cmd_idx == CMD_SEND_RELATIVE_ADDR
        || cmd_idx == CMD_SELECT_CARD || cmd_idx == CMD_SET_BLOCKLEN || cmd_idx == CMD_READ_SINGLE_BLOCK
        || cmd_idx == CMD_READ_MULTIPLE_BLOCK || cmd_idx == CMD_WRITE_SINGLE_BLOCK || cmd_idx
        == CMD_WRITE_MULTIPLE_BLOCK {
        with_data | CMD_CRC_ENABLE | CMD_INDEX_ENABLE
    } else {
        with_data
    }
}

/// The command register value for a command.
pub fn command_reg(cmd_idx: u16, resp_type: u16, has_data: bool) -> (r: u16)
    ensures
        r == spec_command_reg(cmd_idx, resp_type, has_data),
{
    let mut reg: u16 = ((cmd_idx & 0x3F) << 8u16) | resp_type;
    if has_data {
        reg = reg | CMD_DATA_PRESENT;
    }
    if cmd_idx == CMD_GO_IDLE_STATE {
    } else if cmd_idx == CMD_ALL_SEND_CID || cmd_idx == CMD_SEND_CSD {
        reg = reg | CMD_CRC_ENABLE;
    } else if cmd_idx == CMD_SEND_IF_COND || cmd_idx == CMD_APP_CMD {
        reg = reg | CMD_CRC_ENABLE | CMD_INDEX_ENABLE;
    } else if cmd_idx == CMD_SEND_RELATIVE_ADDR {
        reg = reg | CMD_CRC_ENABLE | CMD_INDEX_ENABLE;
    } else if cmd_idx == CMD_SELECT_CARD {
        reg = reg | CMD_CRC_ENABLE | CMD_INDEX_ENABLE;
    } else if cmd_idx == CMD_SET_BLOCKLEN {
        reg = reg | CMD_CRC_ENABLE | CMD_INDEX_ENABLE;
    } else if cmd_idx == CMD_READ_SINGLE_BLOCK || cmd_idx == CMD_READ_MULTIPLE_BLOCK {
        reg = reg | CMD_CRC_ENABLE | CMD_INDEX_ENABLE;
    } else if cmd_idx == CMD_WRITE_SINGLE_BLOCK || cmd_idx == CMD_WRITE_MULTIPLE_BLOCK {
        reg = reg | CMD_CRC_ENABLE | CMD_INDEX_ENABLE;
    }
    reg
}

/// Clock divisor for a controller whose capabilities word is `caps0`:
/// base clock (MHz, bits 15..8) over twice the 50 MHz target, at least 1
/// and at most 0x3FF; 1 when the base clock is unknown or at most 50 MHz.
pub open spec fn spec_clock_div(caps0: u32) -> u32 {
    let base = (caps0 >> 8u32) & 0xFF;
    if base > 0 && base > 50 {
        let d = base / 100;
        if d == 0 {
            1
        } else if d < CLK_MAX_DIV {
            d
        } else {
            CLK_MAX_DIV
        }
    } else {
        1
    }
}

/// The clock divisor.
pub fn clock_div(caps0: u32) -> (r: u32)
    ensures
        r == spec_clock_div(caps0),
{
    let base = (caps0 >> 8u32) & 0xFF;
    let target: u32 = 50;
    if base > 0 && base > target {
        let d = base / (2 * target);
        if d == 0 {
            1
        } else if d < CLK_MAX_DIV {
            d
        } else {
            CLK_MAX_DIV
        }
    } else {
        1
    }
}

/// Clock control value: the divisor with the internal clock enabled.
pub fn clock_value(div: u32) -> (r: u32)
    requires
        div <= CLK_MAX_DIV,
    ensures
        r == (div << 8u32) | CLK_INTERNAL_ENABLE,
{
    (div << 8u32) | CLK_INTERNAL_ENABLE
}

/// A command for the card: index, argument, response type, data flag.
#[derive(Clone, Copy, Debug, PartialEq, Eq, Structural)]
pub struct SdCmd {
    pub idx: u16,
    pub arg: u32,
    pub resp: u16,
    pub data: bool,
}

/// Where the card initialisation stands: the command to send next.
#[derive(Clone, Copy, Debug, PartialEq, Eq, Structural)]
pub enum SdInit {
    GoIdle,
    IfCond,
    AppCmd { retries: u32, v2: bool },
    OpCond { retries: u32, v2: bool },
    AllSendCid,
    SendRca,
    SendCsd { rca: u32 },
    Select { rca: u32 },
    BlockLen { rca: u32 },
    Done { rca: u32 },
    Failed,
}

/// The command a state sends (none once finished).
pub open spec fn spec_sd_command(s: SdInit) -> Option<SdCmd> {
    match s {
        SdInit::GoIdle => Some(SdCmd { idx: CMD_GO_IDLE_STATE, arg: 0, resp: CMD_RESP_NONE, data: false }),
        SdInit::IfCond => Some(
            SdCmd { idx: CMD_SEND_IF_COND, arg: 0x1AA, resp: CMD_RESP_48 | CMD_CRC_ENABLE | CMD_INDEX_ENABLE, data: false },
        ),
        SdInit::AppCmd { .. } => Some(
            SdCmd { idx: CMD_APP_CMD, arg: 0, resp: CMD_RESP_48 | CMD_CRC_ENABLE | CMD_INDEX_ENABLE, data: false },
        ),
        SdInit::OpCond { v2, .. } => Some(
            SdCmd {
                idx: ACMD_SD_SEND_OP_COND,
                arg: if v2 {
                    0x40FF_8000
                } else {
                    0x00FF_8000
                },
                resp: CMD_RESP_48 | CMD_CRC_ENABLE,
                data: false,
            },
        ),
        SdInit::AllSendCid => Some(
            SdCmd { idx: CMD_ALL_SEND_CID, arg: 0, resp: CMD_RESP_136 | CMD_CRC_ENABLE, data: false },
        ),
        SdInit::SendRca => Some(
            SdCmd {
                idx: CMD_SEND_RELATIVE_ADDR,
                arg: 0,
                resp: CMD_RESP_48 | CMD_CRC_ENABLE | CMD_INDEX_ENABLE,
                data: false,
            },
        ),
        SdInit::SendCsd { rca } => Some(
            SdCmd { idx: CMD_SEND_CSD, arg: rca << 16u32, resp: CMD_RESP_136 | CMD_CRC_ENABLE, data: false },
        ),
        SdInit::Select { rca } => Some(
            SdCmd {
                idx: CMD_SELECT_CARD,
                arg: rca << 16u32,
                resp: CMD_RESP_48_BUSY | CMD_CRC_ENABLE | CMD_INDEX_ENABLE,
                data: false,
            },
        ),
        SdInit::BlockLen { .. } => Some(
            SdCmd {
                idx: CMD_SET_BLOCKLEN,
                arg: SDHCI_SECTOR_SIZE as u32,
                resp: CMD_RESP_48 | CMD_CRC_ENABLE | CMD_INDEX_ENABLE,
                data: false,
            },
        ),
        SdInit::Done { .. } => None,
        SdInit::Failed => None,
    }
}

/// The state after the card answered `resp` to this state's command.
/// The handshake of CMD55 and ACMD41 is tried 2000 times; a card that
/// answers the interface check with the 0xAA pattern is a v2 card.
pub open spec fn spec_sd_next(s: SdInit, resp: u32) -> SdInit {
    let failed = resp == CMD_FAILED;
    match s {
        SdInit::GoIdle => SdInit::IfCond,
        SdInit::IfCond => SdInit::AppCmd { retries: OP_COND_RETRIES, v2: !failed && resp & 0xFF == 0xAA },
        SdInit::AppCmd { retries, v2 } => if !failed {
            SdInit::OpCond { retries, v2 }
        } else if retries <= 1 {
            SdInit::Failed
        } else {
            SdInit::AppCmd { retries: (retries - 1) as u32, v2 }
        },
        SdInit::OpCond { retries, v2 } => if !failed && resp & 0x8000_0000 != 0 {
            SdInit::AllSendCid
        } else if retries <= 1 {
            SdInit::Failed
        } else {
            SdInit::AppCmd { retries: (retries - 1) as u32, v2 }
        },
        SdInit::AllSendCid => SdInit::SendRca,
        SdInit::SendRca => if failed {
            SdInit::Failed
        } else {
            SdInit::SendCsd { rca: resp >> 16u32 }
        },
        SdInit::SendCsd { rca } => SdInit::Select { rca },
        SdInit::Select { rca } => if failed {
            SdInit::Failed
        } else {
            SdInit::BlockLen { rca }
        },
        SdInit::BlockLen { rca } => if failed {
            SdInit::Failed
        } else {
            SdInit::Done { rca }
        },
        SdInit::Done { rca } => s,
        SdInit::Failed => s,
    }
}

impl SdInit {
    /// The command to send in this state, if any.
    pub fn command(self) -> (r: Option<SdCmd>)
        ensures
            r == spec_sd_command(self),
    {
        match self {
            SdInit::GoIdle => Some(SdCmd { idx: CMD_GO_IDLE_STATE, arg: 0, resp: CMD_RESP_NONE, data: false }),
            SdInit::IfCond => Some(
                SdCmd {
                    idx: CMD_SEND_IF_COND,
                    arg: 0x1AA,
                    resp: CMD_RESP_48 | CMD_CRC_ENABLE | CMD_INDEX_ENABLE,
                    data: false,
                },
            ),
            SdInit::AppCmd { .. } => Some(
                SdCmd { idx: CMD_APP_CMD, arg: 0, resp: CMD_RESP_48 | CMD_CRC_ENABLE | CMD_INDEX_ENABLE, data: false },
            ),
            SdInit::OpCond { v2, .. } => Some(
                SdCmd {
                    idx: ACMD_SD_SEND_OP_COND,
                    arg: if v2 {
                        0x40FF_8000
                    } else {
                        0x00FF_8000
                    },
                    resp: CMD_RESP_48 | CMD_CRC_ENABLE,
                    data: false,
                },
            ),
            SdInit::AllSendCid => Some(
                SdCmd { idx: CMD_ALL_SEND_CID, arg: 0, resp: CMD_RESP_136 | CMD_CRC_ENABLE, data: false },
            ),
            SdInit::SendRca => Some(
                SdCmd {
                    idx: CMD_SEND_RELATIVE_ADDR,
                    arg: 0,
                    resp: CMD_RESP_48 | CMD_CRC_ENABLE | CMD_INDEX_ENABLE,
                    data: false,
                },
            ),
            SdInit::SendCsd { rca } => Some(
                SdCmd { idx: CMD_SEND_CSD, arg: rca << 16u32, resp: CMD_RESP_136 | CMD_CRC_ENABLE, data: false },
            ),
            SdInit::Select { rca } => Some(
                SdCmd {
                    idx: CMD_SELECT_CARD,
                    arg: rca << 16u32,
                    resp: CMD_RESP_48_BUSY | CMD_CRC_ENABLE | CMD_INDEX_ENABLE,
                    data: false,
                },
            ),
            SdInit::BlockLen { .. } => Some(
                SdCmd {
                    idx: CMD_SET_BLOCKLEN,
                    arg: SDHCI_SECTOR_SIZE as u32,
                    resp: CMD_RESP_48 | CMD_CRC_ENABLE | CMD_INDEX_ENABLE,
                    data: false,
                },
            ),
            SdInit::Done { .. } => None,
            SdInit::Failed => None,
        }
    }

    /// The next state, given the card's reply to this state's command.
    pub fn next(self, resp: u32) -> (r: SdInit)
        ensures
            r == spec_sd_next(self, resp),
    {
        let failed = resp == CMD_FAILED;
        match self {
            SdInit::GoIdle => SdInit::IfCond,
            SdInit::IfCond => SdInit::AppCmd { retries: OP_COND_RETRIES, v2: !failed && resp & 0xFF == 0xAA },
            SdInit::AppCmd { retries, v2 } => {
                if !failed {
                    SdInit::OpCond { retries, v2 }
                } else if retries <= 1 {
                    SdInit::Failed
                } else {
                    SdInit::AppCmd { retries: retries - 1, v2 }
                }
            },
            SdInit::OpCond { retries, v2 } => {
                if !failed && resp & 0x8000_0000 != 0 {
                    SdInit::AllSendCid
                } else if retries <= 1 {
                    SdInit::Failed
                } else {
                    SdInit::AppCmd { retries: retries - 1, v2 }
                }
            },
            SdInit::AllSendCid => SdInit::SendRca,
            SdInit::SendRca => {
                if failed {
                    SdInit::Failed
                } else {
                    SdInit::SendCsd { rca: resp >> 16u32 }
                }
            },
            SdInit::SendCsd { rca } => SdInit::Select { rca },
            SdInit::Select { rca } => {
                if failed {
                    SdInit::Failed
                } else {
                    SdInit::BlockLen { rca }
                }
            },
            SdInit::BlockLen { rca } => {
                if failed {
                    SdInit::Failed
                } else {
                    SdInit::Done { rca }
                }
            },
            SdInit::Done { rca } => self,
            SdInit::Failed => self,
        }
    }
}

/// The controller is present and usable: a non-zero version and a
/// removable-slot capabilities word.
pub fn controller_ok(version: u16, caps: u32) -> (r: bool)
    ensures
        r == (version != 0 && (caps >> 30u32) & 0x3 == 0),
{
    version != 0 && (caps >> 30u32) & 0x3 == 0
}

/// The 32-bit word the data port carries for bytes `b[i..i + 4]`.
pub fn pio_word(b: &[u8], i: usize) -> (r: u32)
    requires
        i + 4 <= b@.len(),
    ensures
        r == crate::le::le_u32(b@, i as int),
{
    crate::le::read_u32(b, i)
}


/// Polls of a register before a wait gives up.
pub const SDHCI_TIMEOUT: u32 = 1_000_000;
pub const INT_TRANSFER_COMPLETE: u32 = 2;
pub const INT_ERROR: u32 = 0x8000;

/// One step of a bounded wait: the condition held, poll again, or the
/// polls ran out.
#[derive(Clone, Copy, Debug, PartialEq, Eq, Structural)]
pub enum PollStep {
    Done,
    Again,
    TimedOut,
}

/// A bounded wait on a register condition, with the polls left.
#[derive(Clone, Copy, Debug, PartialEq, Eq, Structural)]
pub struct Poll {
    pub left: u32,
}

impl Poll {
    /// A wait with the driver's full allowance of polls.
    pub fn new() -> (r: Poll)
        ensures
            r.left == SDHCI_TIMEOUT,
    {
        Poll { left: SDHCI_TIMEOUT }
    }

    /// Takes one poll whose condition is `cond`: done when it holds with
    /// polls left; otherwise one poll fewer, timed out when none remain.
    pub fn step(&mut self, cond: bool) -> (r: PollStep)
        ensures
            old(self).left == 0 ==> r == PollStep::TimedOut && final(self).left == 0,
            old(self).left > 0 && cond ==> r == PollStep::Done && final(self).left == old(self).left,
            old(self).left > 0 && !cond ==> final(self).left == old(self).left - 1 && r == (if final(self).left == 0 {
                PollStep::TimedOut
            } else {
                PollStep::Again
            }),
    {
        if self.left == 0 {
            return PollStep::TimedOut;
        }
        if cond {
            return PollStep::Done;
        }
        self.left = self.left - 1;
        if self.left == 0 {
            PollStep::TimedOut
        } else {
            PollStep::Again
        }
    }
}

/// Both the command and the data lines are free.
pub fn lines_idle(present_state: u32) -> (r: bool)
    ensures
        r == (present_state & (PS_CMD_INHIBIT | PS_DAT_INHIBIT) == 0),
{
    present_state & (PS_CMD_INHIBIT | PS_DAT_INHIBIT) == 0
}

/// A card sits in the slot.
pub fn card_present(present_state: u32) -> (r: bool)
    ensures
        r == (present_state & PS_CARD_INSERTED != 0),
{
    present_state & PS_CARD_INSERTED != 0
}

/// What the interrupt status says of a data transfer: failed on the
/// error bit (the driver then clears the interrupts and resets the data
/// line), done on transfer complete (acknowledged), else still running.
#[derive(Clone, Copy, Debug, PartialEq, Eq, Structural)]
pub enum XferStatus {
    Failed,
    Complete,
    Running,
}

/// Reads the transfer's state from the normal interrupt status.
pub fn transfer_status(istat: u32) -> (r: XferStatus)
    ensures
        istat & INT_ERROR != 0 ==> r == XferStatus::Failed,
        istat & INT_ERROR == 0 && istat & INT_TRANSFER_COMPLETE != 0 ==> r == XferStatus::Complete,
        istat & INT_ERROR == 0 && istat & INT_TRANSFER_COMPLETE == 0 ==> r == XferStatus::Running,
{
    if istat & INT_ERROR != 0 {
        XferStatus::Failed
    } else if istat & INT_TRANSFER_COMPLETE != 0 {
        XferStatus::Complete
    } else {
        XferStatus::Running
    }
}

/// The sector `i` sectors after `lba`, for multi-sector transfers.
pub fn sector_at(lba: u64, i: u32) -> (r: u64)
    requires
        lba + i <= u64::MAX,
    ensures
        r == lba + i,
{
    lba + i as u64
}

} // verus!
