//! YMODEM (CRC-16, 1 KiB blocks) sender: checksums, packets, the file header
//! block, the byte-wait rule and the transfer as a state machine.
//!
//! The port and the file are driven by the caller: each step here tells it what
//! to do next (wait for a byte, write, read the next block, report progress)
//! and it answers with what happened.
use vstd::prelude::*;

use crate::error::CoreError;
use crate::text::{decimal, hex2, push_decimal, push_hex2, push_str, string_from_chars};

verus! {

pub const SOH: u8 = 0x01;
pub const STX: u8 = 0x02;
pub const EOT: u8 = 0x04;
pub const ACK: u8 = 0x06;
pub const NAK: u8 = 0x15;
pub const CAN: u8 = 0x18;
pub const CRC_C: u8 = 0x43;
/// Filler of a short final data block (SUB).
pub const PAD: u8 = 0x1a;
pub const HEADER_LEN: usize = 128;
pub const BLOCK_LEN: usize = 1024;

/// One shift of the CRC-16/XMODEM register (polynomial 0x1021).
pub open spec fn crc_bit(crc: u16) -> u16 {
    if crc & 0x8000 != 0 {
        ((crc << 1u16) ^ 0x1021u16) as u16
    } else {
        (crc << 1u16) as u16
    }
}

pub open spec fn crc_shift(crc: u16, n: nat) -> u16
    decreases n,
{
    if n == 0 {
        crc
    } else {
        crc_shift(crc_bit(crc), (n - 1) as nat)
    }
}

/// The register after feeding one byte, most significant bit first.
pub open spec fn crc_byte(crc: u16, b: u8) -> u16 {
    crc_shift(crc ^ (((b as u16) << 8u16) as u16), 8)
}

/// CRC-16/XMODEM of `data`: initial value 0, no reflection, no final xor.
pub open spec fn crc16_of(data: Seq<u8>) -> u16
    decreases data.len(),
{
    if data.len() == 0 {
        0
    } else {
        crc_byte(crc16_of(data.drop_last()), data.last())
    }
}

/// A YMODEM packet: start byte (STX for 1 KiB, SOH for 128 bytes), sequence
/// number, its complement, the data, and the CRC big-endian.
pub open spec fn packet_bytes(sequence: u8, data: Seq<u8>, one_k: bool) -> Seq<u8> {
    seq![if one_k { STX } else { SOH }, sequence, (255 - sequence) as u8] + data + seq![
        (crc16_of(data) / 256) as u8,
        (crc16_of(data) % 256) as u8,
    ]
}

/// ASCII decimal digits of `n`.
pub open spec fn decimal_ascii(n: nat) -> Seq<u8> {
    decimal(n).map_values(|c: char| c as u8)
}

/// File name, NUL, decimal size: the content of the YMODEM header block.
pub open spec fn header_metadata(file_name: Seq<u8>, file_size: u64) -> Seq<u8> {
    file_name + seq![0u8] + decimal_ascii(file_size as nat)
}

/// The 128-byte header block, or `None` when the metadata does not fit.
pub open spec fn header_block_of(file_name: Seq<u8>, file_size: u64) -> Option<Seq<u8>> {
    let m = header_metadata(file_name, file_size);
    if m.len() > HEADER_LEN {
        None
    } else {
        Some(m + Seq::new((HEADER_LEN - m.len()) as nat, |i: int| 0u8))
    }
}

/// A data block: the bytes read from the file, padded to 1 KiB with SUB.
pub open spec fn padded_block(data: Seq<u8>) -> Seq<u8> {
    data + Seq::new((BLOCK_LEN - data.len()) as nat, |i: int| PAD)
}

/// CRC-16/XMODEM of `data`.
pub fn crc16(data: &[u8]) -> (crc: u16)
    ensures
        crc == crc16_of(data@),
{
    let mut crc: u16 = 0;
    let mut i: usize = 0;
    assert(data@.take(0) =~= Seq::<u8>::empty());
    while i < data.len()
        invariant
            0 <= i <= data.len(),
            crc == crc16_of(data@.take(i as int)),
        decreases data.len() - i,
    {
        let ghost start: u16 = (crc ^ (((data[i as int] as u16) << 8u16) as u16)) as u16;
        crc = crc ^ ((data[i] as u16) << 8);
        assert(crc == start);
        let mut j: u8 = 0;
        while j < 8
            invariant
                0 <= j <= 8,
                crc_shift(start, 8) == crc_shift(crc, (8 - j) as nat),
            decreases 8 - j,
        {
            crc = if crc & 0x8000 != 0 {
                (crc << 1) ^ 0x1021
            } else {
                crc << 1
            };
            j = j + 1;
        }
        assert(data@.take(i + 1).drop_last() =~= data@.take(i as int));
        i = i + 1;
    }
    assert(data@.take(data.len() as int) =~= data@);
    crc
}

/// Builds one YMODEM packet around `data`.
pub fn packet(sequence: u8, data: &[u8], one_k: bool) -> (out: Vec<u8>)
    ensures
        out@ == packet_bytes(sequence, data@, one_k),
{
    let mut output: Vec<u8> = Vec::new();
    output.push(if one_k { STX } else { SOH });
    output.push(sequence);
    output.push(0xff - sequence);
    let mut i: usize = 0;
    while i < data.len()
        invariant
            0 <= i <= data.len(),
            output@ == seq![if one_k { STX } else { SOH }, sequence, (255 - sequence) as u8]
                + data@.take(i as int),
        decreases data.len() - i,
    {
        output.push(data[i]);
        assert(data@.take(i + 1) =~= data@.take(i as int).push(data@[i as int]));
        i = i + 1;
    }
    assert(data@.take(data.len() as int) =~= data@);
    let crc = crc16(data);
    output.push((crc / 256) as u8);
    output.push((crc % 256) as u8);
    assert(output@ =~= packet_bytes(sequence, data@, one_k));
    output
}

/// Builds the header block that announces the file name and size.
pub fn header_block(file_name: &[u8], file_size: u64) -> (r: Result<Vec<u8>, CoreError>)
    ensures
        match header_block_of(file_name@, file_size) {
            Some(b) => r matches Ok(v) && v@ == b,
            None => r matches Err(CoreError::Other(m))
                && m@ == "firmware filename is too long for YMODEM"@,
        },
{
    let mut meta: Vec<u8> = Vec::new();
    let mut i: usize = 0;
    while i < file_name.len()
        invariant
            0 <= i <= file_name.len(),
            meta@ == file_name@.take(i as int),
        decreases file_name.len() - i,
    {
        meta.push(file_name[i]);
        assert(file_name@.take(i + 1) =~= file_name@.take(i as int).push(file_name@[i as int]));
        i = i + 1;
    }
    assert(file_name@.take(file_name.len() as int) =~= file_name@);
    meta.push(0u8);
    let mut digits: Vec<char> = Vec::new();
    push_decimal(&mut digits, file_size);
    assert(digits@ =~= decimal(file_size as nat));
    let mut k: usize = 0;
    let ghost base = meta@;
    while k < digits.len()
        invariant
            0 <= k <= digits.len(),
            digits@ == decimal(file_size as nat),
            meta@ == base + digits@.take(k as int).map_values(|c: char| c as u8),
        decreases digits.len() - k,
    {
        meta.push(digits[k] as u8);
        assert(digits@.take(k + 1).map_values(|c: char| c as u8) =~= digits@.take(
            k as int,
        ).map_values(|c: char| c as u8).push(digits@[k as int] as u8));
        k = k + 1;
    }
    assert(digits@.take(digits.len() as int) =~= digits@);
    assert(meta@ =~= header_metadata(file_name@, file_size));
    if meta.len() > HEADER_LEN {
        return Err(CoreError::other("firmware filename is too long for YMODEM"));
    }
    let ghost m = meta@;
    while meta.len() < HEADER_LEN
        invariant
            m.len() <= meta@.len() <= HEADER_LEN,
            meta@ =~= m + Seq::new((meta@.len() - m.len()) as nat, |i: int| 0u8),
        decreases HEADER_LEN - meta.len(),
    {
        meta.push(0u8);
    }
    Ok(meta)
}

/// The closing packet: an empty header block.
pub fn closing_packet() -> (out: Vec<u8>)
    ensures
        out@ == packet_bytes(0, Seq::new(HEADER_LEN as nat, |i: int| 0u8), false),
{
    let mut empty: Vec<u8> = Vec::new();
    while empty.len() < HEADER_LEN
        invariant
            empty.len() <= HEADER_LEN,
            empty@ =~= Seq::new(empty.len() as nat, |i: int| 0u8),
        decreases HEADER_LEN - empty.len(),
    {
        empty.push(0u8);
    }
    packet(0, &empty, false)
}

/// Pads the bytes read from the file to a full 1 KiB block.
pub fn pad_block(data: &[u8]) -> (out: Vec<u8>)
    requires
        data.len() <= BLOCK_LEN,
    ensures
        out@ == padded_block(data@),
{
    let mut out: Vec<u8> = Vec::new();
    let mut i: usize = 0;
    while i < data.len()
        invariant
            0 <= i <= data.len(),
            out@ == data@.take(i as int),
        decreases data.len() - i,
    {
        out.push(data[i]);
        assert(data@.take(i + 1) =~= data@.take(i as int).push(data@[i as int]));
        i = i + 1;
    }
    assert(data@.take(data.len() as int) =~= data@);
    while out.len() < BLOCK_LEN
        invariant
            data.len() <= out.len() <= BLOCK_LEN,
            out@ =~= data@ + Seq::new((out.len() - data.len()) as nat, |i: int| PAD),
        decreases BLOCK_LEN - out.len(),
    {
        out.push(PAD);
    }
    out
}

/// What one attempt to read a byte from the port gave.
pub enum ReadOutcome {
    Byte(u8),
    /// The read returned no byte.
    Nothing,
    /// The port's read timeout expired.
    TimedOut,
    /// The port failed; the payload is the failure's message.
    Failed(String),
}

/// Where a wait for an expected byte stands.
pub enum WaitStatus {
    Matched,
    Pending,
    Failed(CoreError),
}

/// Waits for one expected byte, tolerating a bounded number of other bytes.
pub struct Waiter {
    pub expected: u8,
    pub max_garbage: usize,
    pub garbage: usize,
}

pub open spec fn wait_label(expected: u8) -> Seq<char> {
    "waiting for 0x"@ + hex2(expected)
}

impl Waiter {
    pub open spec fn wf(&self) -> bool {
        self.garbage <= self.max_garbage < usize::MAX
    }

    pub fn new(expected: u8, max_garbage: usize) -> (w: Waiter)
        requires
            max_garbage < usize::MAX,
        ensures
            w.expected == expected,
            w.max_garbage == max_garbage,
            w.garbage == 0,
            w.wf(),
    {
        Waiter { expected, max_garbage, garbage: 0 }
    }

    /// Takes the outcome of one read.
    pub fn on_read(&mut self, outcome: ReadOutcome) -> (status: WaitStatus)
        requires
            old(self).wf(),
        ensures
            final(self).wf(),
            final(self).expected == old(self).expected,
            final(self).max_garbage == old(self).max_garbage,
            match outcome {
                ReadOutcome::Byte(b) => if b == old(self).expected {
                    status is Matched && final(self).garbage == old(self).garbage
                } else if old(self).garbage + 1 > old(self).max_garbage {
                    &&& status matches WaitStatus::Failed(CoreError::Other(m))
                    &&& m@ == "received too much unexpected data while "@ + wait_label(old(self).expected)
                    &&& final(self).garbage == old(self).garbage
                } else {
                    status is Pending && final(self).garbage == old(self).garbage + 1
                },
                ReadOutcome::Nothing => status is Pending && final(self).garbage == old(self).garbage,
                ReadOutcome::TimedOut => status is Pending && final(self).garbage == old(self).garbage,
                ReadOutcome::Failed(m) => (status matches WaitStatus::Failed(CoreError::Serial(e))
                    && e == m) && final(self).garbage == old(self).garbage,
            },
    {
        match outcome {
            ReadOutcome::Byte(b) => {
                if b == self.expected {
                    WaitStatus::Matched
                } else if self.garbage + 1 > self.max_garbage {
                    let mut out: Vec<char> = Vec::new();
                    push_str(&mut out, "received too much unexpected data while ");
                    push_str(&mut out, "waiting for 0x");
                    push_hex2(&mut out, self.expected);
                    WaitStatus::Failed(CoreError::Other(string_from_chars(&out)))
                } else {
                    self.garbage = self.garbage + 1;
                    WaitStatus::Pending
                }
            },
            ReadOutcome::Nothing => WaitStatus::Pending,
            ReadOutcome::TimedOut => WaitStatus::Pending,
            ReadOutcome::Failed(m) => WaitStatus::Failed(CoreError::Serial(m)),
        }
    }

    /// The error when the wait's deadline passes.
    pub fn timeout_error(&self) -> (e: CoreError)
        ensures
            e matches CoreError::Timeout(m) && m@ == wait_label(self.expected),
    {
        let mut out: Vec<char> = Vec::new();
        push_str(&mut out, "waiting for 0x");
        push_hex2(&mut out, self.expected);
        CoreError::Timeout(string_from_chars(&out))
    }
}

/// Where a transfer stands.
#[derive(Debug, Clone, Copy, PartialEq, Eq, Structural)]
pub enum SenderPhase {
    AwaitReceiver,
    HeaderSent,
    HeaderAck,
    DataStart,
    Reading,
    BlockSent,
    BlockAck,
    Reporting,
    EotSent,
    EotReply,
    EotResent,
    EotAck,
    Closing,
    FinalSent,
    FinalAck,
    Finished,
}

/// What the caller does next.
pub enum SenderAction {
    /// Wait (see `Waiter`) for `expected`, at most `timeout_secs` seconds.
    WaitFor { expected: u8, timeout_secs: u64, max_garbage: usize },
    /// Write these bytes to the port.
    Write(Vec<u8>),
    /// Read up to 1 KiB from the file, unless cancellation was asked for.
    ReadBlock,
    /// Read one reply byte, at most `timeout_secs` seconds.
    ReadReply { timeout_secs: u64 },
    /// Report `sent` of `total` bytes.
    Progress { sent: u64, total: u64 },
    /// Write CAN CAN and stop: the transfer was cancelled.
    Cancel,
    /// The transfer completed.
    Done,
    /// The transfer failed.
    Fail(CoreError),
}

/// The sending side of a YMODEM transfer of one file.
pub struct YmodemSender {
    pub phase: SenderPhase,
    pub file_name: Vec<u8>,
    pub file_size: u64,
    /// Sequence number of the next data block.
    pub sequence: u8,
    /// Bytes of the file acknowledged so far.
    pub sent: u64,
    /// Length of the block waiting for its acknowledgement.
    pub pending: u64,
}

pub open spec fn is_wait(a: SenderAction, expected: u8, timeout_secs: u64, max_garbage: usize) -> bool {
    a matches SenderAction::WaitFor { expected: e, timeout_secs: t, max_garbage: g }
        && e == expected && t == timeout_secs && g == max_garbage
}

pub open spec fn is_write(a: SenderAction, bytes: Seq<u8>) -> bool {
    a matches SenderAction::Write(v) && v@ == bytes
}

pub open spec fn min_u64(a: int, b: int) -> int {
    if a < b { a } else { b }
}

impl YmodemSender {
    pub open spec fn wf(&self) -> bool {
        &&& self.sent <= self.file_size
        &&& self.pending <= BLOCK_LEN
    }

    /// A transfer of `file_size` bytes named `file_name`; it starts by waiting
    /// up to 60 s for the receiver's 'C'.
    pub fn new(file_name: Vec<u8>, file_size: u64) -> (r: (YmodemSender, SenderAction))
        ensures
            r.0.wf(),
            r.0.phase == SenderPhase::AwaitReceiver,
            r.0.file_name@ == file_name@,
            r.0.file_size == file_size,
            r.0.sequence == 1,
            r.0.sent == 0,
            is_wait(r.1, CRC_C, 60, 500),
    {
        (
            YmodemSender { phase: SenderPhase::AwaitReceiver, file_name, file_size, sequence: 1, sent: 0, pending: 0 },
            SenderAction::WaitFor { expected: CRC_C, timeout_secs: 60, max_garbage: 500 },
        )
    }

    pub open spec fn awaits_wait(&self) -> bool {
        ||| self.phase == SenderPhase::AwaitReceiver
        ||| self.phase == SenderPhase::HeaderAck
        ||| self.phase == SenderPhase::DataStart
        ||| self.phase == SenderPhase::BlockAck
        ||| self.phase == SenderPhase::EotAck
        ||| self.phase == SenderPhase::Closing
        ||| self.phase == SenderPhase::FinalAck
    }

    pub open spec fn awaits_write(&self) -> bool {
        ||| self.phase == SenderPhase::HeaderSent
        ||| self.phase == SenderPhase::BlockSent
        ||| self.phase == SenderPhase::EotSent
        ||| self.phase == SenderPhase::EotResent
        ||| self.phase == SenderPhase::FinalSent
    }

    /// The awaited byte arrived.
    pub fn on_waited(&mut self) -> (a: SenderAction)
        requires
            old(self).wf(),
            old(self).awaits_wait(),
        ensures
            final(self).wf(),
            final(self).file_name == old(self).file_name,
            final(self).file_size == old(self).file_size,
            old(self).phase != SenderPhase::BlockAck ==> final(self).sent == old(self).sent
                && final(self).sequence == old(self).sequence,
            old(self).phase == SenderPhase::AwaitReceiver ==> match header_block_of(
                old(self).file_name@,
                old(self).file_size,
            ) {
                Some(h) => final(self).phase == SenderPhase::HeaderSent && is_write(a, packet_bytes(0, h, false)),
                None => final(self).phase == SenderPhase::Finished
                    && (a matches SenderAction::Fail(CoreError::Other(m))
                    && m@ == "firmware filename is too long for YMODEM"@),
            },
            old(self).phase == SenderPhase::HeaderAck ==> final(self).phase == SenderPhase::DataStart
                && is_wait(a, CRC_C, 10, 100),
            old(self).phase == SenderPhase::DataStart ==> final(self).phase == SenderPhase::Reading
                && a is ReadBlock,
            old(self).phase == SenderPhase::BlockAck ==> {
                &&& final(self).phase == SenderPhase::Reporting
                &&& final(self).sent == min_u64(old(self).sent + old(self).pending, old(self).file_size as int)
                &&& final(self).sequence == (old(self).sequence + 1) % 256
                &&& a matches SenderAction::Progress { sent, total }
                &&& sent == final(self).sent && total == old(self).file_size
            },
            old(self).phase == SenderPhase::EotAck ==> final(self).phase == SenderPhase::Closing
                && is_wait(a, CRC_C, 10, 50),
            old(self).phase == SenderPhase::Closing ==> final(self).phase == SenderPhase::FinalSent
                && is_write(a, packet_bytes(0, Seq::new(HEADER_LEN as nat, |i: int| 0u8), false)),
            old(self).phase == SenderPhase::FinalAck ==> final(self).phase == SenderPhase::Finished
                && a is Done,
    {
        match self.phase {
            SenderPhase::AwaitReceiver => {
                match header_block(&self.file_name, self.file_size) {
                    Ok(h) => {
                        self.phase = SenderPhase::HeaderSent;
                        SenderAction::Write(packet(0, &h, false))
                    },
                    Err(e) => {
                        self.phase = SenderPhase::Finished;
                        SenderAction::Fail(e)
                    },
                }
            },
            SenderPhase::HeaderAck => {
                self.phase = SenderPhase::DataStart;
                SenderAction::WaitFor { expected: CRC_C, timeout_secs: 10, max_garbage: 100 }
            },
            SenderPhase::DataStart => {
                self.phase = SenderPhase::Reading;
                SenderAction::ReadBlock
            },
            SenderPhase::BlockAck => {
                if self.pending > self.file_size - self.sent {
                    self.sent = self.file_size;
                } else {
                    self.sent = self.sent + self.pending;
                }
                self.sequence = self.sequence.wrapping_add(1);
                self.phase = SenderPhase::Reporting;
                SenderAction::Progress { sent: self.sent, total: self.file_size }
            },
            SenderPhase::EotAck => {
                self.phase = SenderPhase::Closing;
                SenderAction::WaitFor { expected: CRC_C, timeout_secs: 10, max_garbage: 50 }
            },
            SenderPhase::Closing => {
                self.phase = SenderPhase::FinalSent;
                SenderAction::Write(closing_packet())
            },
            _ => {
                self.phase = SenderPhase::Finished;
                SenderAction::Done
            },
        }
    }

    /// The last write went out.
    pub fn on_written(&mut self) -> (a: SenderAction)
        requires
            old(self).wf(),
            old(self).awaits_write(),
        ensures
            final(self).wf(),
            final(self).file_name == old(self).file_name,
            final(self).file_size == old(self).file_size,
            final(self).sent == old(self).sent,
            final(self).sequence == old(self).sequence,
            final(self).pending == old(self).pending,
            old(self).phase == SenderPhase::HeaderSent ==> final(self).phase == SenderPhase::HeaderAck
                && is_wait(a, ACK, 10, 100),
            old(self).phase == SenderPhase::BlockSent ==> final(self).phase == SenderPhase::BlockAck
                && is_wait(a, ACK, 10, 50),
            old(self).phase == SenderPhase::EotSent ==> final(self).phase == SenderPhase::EotReply
                && (a matches SenderAction::ReadReply { timeout_secs } && timeout_secs == 3),
            old(self).phase == SenderPhase::EotResent ==> final(self).phase == SenderPhase::EotAck
                && is_wait(a, ACK, 10, 50),
            old(self).phase == SenderPhase::FinalSent ==> final(self).phase == SenderPhase::FinalAck
                && is_wait(a, ACK, 10, 50),
    {
        match self.phase {
            SenderPhase::HeaderSent => {
                self.phase = SenderPhase::HeaderAck;
                SenderAction::WaitFor { expected: ACK, timeout_secs: 10, max_garbage: 100 }
            },
            SenderPhase::BlockSent => {
                self.phase = SenderPhase::BlockAck;
                SenderAction::WaitFor { expected: ACK, timeout_secs: 10, max_garbage: 50 }
            },
            SenderPhase::EotSent => {
                self.phase = SenderPhase::EotReply;
                SenderAction::ReadReply { timeout_secs: 3 }
            },
            SenderPhase::EotResent => {
                self.phase = SenderPhase::EotAck;
                SenderAction::WaitFor { expected: ACK, timeout_secs: 10, max_garbage: 50 }
            },
            _ => {
                self.phase = SenderPhase::FinalAck;
                SenderAction::WaitFor { expected: ACK, timeout_secs: 10, max_garbage: 50 }
            },
        }
    }

    /// Progress was reported; go on with the next block.
    pub fn on_reported(&mut self) -> (a: SenderAction)
        requires
            old(self).wf(),
            old(self).phase == SenderPhase::Reporting,
        ensures
            *final(self) == (YmodemSender { phase: SenderPhase::Reading, ..*old(self) }),
            a is ReadBlock,
    {
        self.phase = SenderPhase::Reading;
        SenderAction::ReadBlock
    }

    /// Cancellation was asked for before the next block was read.
    pub fn on_cancel(&mut self) -> (a: SenderAction)
        requires
            old(self).wf(),
            old(self).phase == SenderPhase::Reading,
        ensures
            *final(self) == (YmodemSender { phase: SenderPhase::Finished, ..*old(self) }),
            a is Cancel,
    {
        self.phase = SenderPhase::Finished;
        SenderAction::Cancel
    }

    /// The next bytes of the file (empty at its end).
    pub fn on_block(&mut self, data: &[u8]) -> (a: SenderAction)
        requires
            old(self).wf(),
            old(self).phase == SenderPhase::Reading,
            data.len() <= BLOCK_LEN,
        ensures
            final(self).wf(),
            final(self).file_name == old(self).file_name,
            final(self).file_size == old(self).file_size,
            final(self).sent == old(self).sent,
            final(self).sequence == old(self).sequence,
            data.len() == 0 ==> final(self).phase == SenderPhase::EotSent && is_write(a, seq![EOT]),
            data.len() > 0 ==> {
                &&& final(self).phase == SenderPhase::BlockSent
                &&& final(self).pending == data.len()
                &&& is_write(a, packet_bytes(old(self).sequence, padded_block(data@), true))
            },
    {
        if data.len() == 0 {
            self.phase = SenderPhase::EotSent;
            let mut v: Vec<u8> = Vec::new();
            v.push(EOT);
            assert(v@ =~= seq![EOT]);
            SenderAction::Write(v)
        } else {
            self.pending = data.len() as u64;
            self.phase = SenderPhase::BlockSent;
            let block = pad_block(data);
            SenderAction::Write(packet(self.sequence, &block, true))
        }
    }

    /// The receiver's reply to the end of transmission.
    pub fn on_reply(&mut self, reply: u8) -> (a: SenderAction)
        requires
            old(self).wf(),
            old(self).phase == SenderPhase::EotReply,
        ensures
            final(self).wf(),
            final(self).file_name == old(self).file_name,
            final(self).file_size == old(self).file_size,
            final(self).sent == old(self).sent,
            final(self).sequence == old(self).sequence,
            reply == NAK ==> final(self).phase == SenderPhase::EotResent && is_write(a, seq![EOT]),
            reply == ACK ==> final(self).phase == SenderPhase::Closing && is_wait(a, CRC_C, 10, 50),
            reply != NAK && reply != ACK ==> {
                &&& final(self).phase == SenderPhase::Finished
                &&& a matches SenderAction::Fail(CoreError::Other(m))
                &&& m@ == "unexpected EOT response 0x"@ + hex2(reply)
            },
    {
        if reply == NAK {
            self.phase = SenderPhase::EotResent;
            let mut v: Vec<u8> = Vec::new();
            v.push(EOT);
            assert(v@ =~= seq![EOT]);
            SenderAction::Write(v)
        } else if reply == ACK {
            self.phase = SenderPhase::Closing;
            SenderAction::WaitFor { expected: CRC_C, timeout_secs: 10, max_garbage: 50 }
        } else {
            self.phase = SenderPhase::Finished;
            let mut out: Vec<char> = Vec::new();
            push_str(&mut out, "unexpected EOT response 0x");
            push_hex2(&mut out, reply);
            SenderAction::Fail(CoreError::Other(string_from_chars(&out)))
        }
    }

    /// The error when no reply to the end of transmission arrives in time.
    pub fn reply_timeout() -> (e: CoreError)
        ensures
            e matches CoreError::Timeout(m) && m@ == "waiting for EOT response"@,
    {
        CoreError::timeout("waiting for EOT response")
    }
}

/// The header block announces the file: it begins with the name, then a NUL,
/// then decimal digits whose value is the file size, then zeros.
pub proof fn lemma_header_announces_file(file_name: Seq<u8>, file_size: u64)
    requires
        header_block_of(file_name, file_size) is Some,
    ensures
        ({
            let b = header_block_of(file_name, file_size).unwrap();
            let digits = decimal(file_size as nat);
            let end: int = file_name.len() + 1int + digits.len();
            &&& b.len() == HEADER_LEN
            &&& b.subrange(0, file_name.len() as int) == file_name
            &&& b[file_name.len() as int] == 0
            &&& b.subrange(file_name.len() + 1int, end) == decimal_ascii(file_size as nat)
            &&& forall|k: int| end <= k < HEADER_LEN ==> b[k] == 0
        }),
        crate::text::decimal_value(decimal(file_size as nat)) == file_size,
{
    crate::text::lemma_decimal_roundtrip(file_size as nat);
    let b = header_block_of(file_name, file_size).unwrap();
    let m = header_metadata(file_name, file_size);
    let digits = decimal_ascii(file_size as nat);
    assert(b.subrange(0, file_name.len() as int) =~= file_name);
    assert(b.subrange(file_name.len() + 1int, file_name.len() + 1int + digits.len()) =~= digits);
}

/// Every packet is five bytes longer than its data, and its sequence number
/// and complement add up to 255.
pub proof fn lemma_packet_frame(sequence: u8, data: Seq<u8>, one_k: bool)
    ensures
        packet_bytes(sequence, data, one_k).len() == data.len() + 5,
        packet_bytes(sequence, data, one_k)[1] + packet_bytes(sequence, data, one_k)[2] == 255,
        packet_bytes(sequence, data, one_k).subrange(3, 3int + data.len()) == data,
        packet_bytes(sequence, data, one_k)[3int + data.len()] * 256 + packet_bytes(sequence, data, one_k)[4int
            + data.len()] == crc16_of(data),
{
    let p = packet_bytes(sequence, data, one_k);
    assert(p.subrange(3, 3int + data.len()) =~= data);
}

/// Feeding a register's own two bytes, high byte first, clears it.
proof fn lemma_crc_of_own_bytes(c: u16)
    ensures
        crc_byte(crc_byte(c, (c / 256) as u8), (c % 256) as u8) == 0,
{
    let hi: u8 = (c / 256) as u8;
    let lo: u8 = (c % 256) as u8;
    let a0: u16 = c ^ (((hi as u16) << 8u16) as u16);
    let a1 = crc_bit(a0);
    let a2 = crc_bit(a1);
    let a3 = crc_bit(a2);
    let a4 = crc_bit(a3);
    let a5 = crc_bit(a4);
    let a6 = crc_bit(a5);
    let a7 = crc_bit(a6);
    let a8 = crc_bit(a7);
    assert(crc_shift(a0, 8) == a8) by {
        reveal_with_fuel(crc_shift, 9);
    }
    let b0: u16 = a8 ^ (((lo as u16) << 8u16) as u16);
    let b1 = crc_bit(b0);
    let b2 = crc_bit(b1);
    let b3 = crc_bit(b2);
    let b4 = crc_bit(b3);
    let b5 = crc_bit(b4);
    let b6 = crc_bit(b5);
    let b7 = crc_bit(b6);
    let b8 = crc_bit(b7);
    assert(crc_shift(b0, 8) == b8) by {
        reveal_with_fuel(crc_shift, 9);
    }
    assert(b8 == 0) by (bit_vector)
        requires
            hi == (c / 256) as u8,
            lo == (c % 256) as u8,
            a0 == c ^ (((hi as u16) << 8u16) as u16),
            a1 == crc_bit(a0),
            a2 == crc_bit(a1),
            a3 == crc_bit(a2),
            a4 == crc_bit(a3),
            a5 == crc_bit(a4),
            a6 == crc_bit(a5),
            a7 == crc_bit(a6),
            a8 == crc_bit(a7),
            b0 == a8 ^ (((lo as u16) << 8u16) as u16),
            b1 == crc_bit(b0),
            b2 == crc_bit(b1),
            b3 == crc_bit(b2),
            b4 == crc_bit(b3),
            b5 == crc_bit(b4),
            b6 == crc_bit(b5),
            b7 == crc_bit(b6),
            b8 == crc_bit(b7),
    ;
}

/// Every packet passes the receiver's check: the CRC run over a packet's
/// data followed by its two CRC bytes ends at zero.
pub proof fn lemma_packet_crc_checks(sequence: u8, data: Seq<u8>, one_k: bool)
    ensures
        crc16_of(packet_bytes(sequence, data, one_k).subrange(3, data.len() + 5int)) == 0,
{
    let c = crc16_of(data);
    let p = packet_bytes(sequence, data, one_k);
    let checked = data + seq![(c / 256) as u8, (c % 256) as u8];
    assert(p.subrange(3, data.len() + 5int) =~= checked);
    assert(checked.drop_last() =~= data.push((c / 256) as u8));
    assert(data.push((c / 256) as u8).drop_last() =~= data);
    let first = data.push((c / 256) as u8);
    assert(first.last() == (c / 256) as u8);
    assert(checked.last() == (c % 256) as u8);
    assert(crc16_of(first) == crc_byte(c, (c / 256) as u8));
    assert(crc16_of(checked) == crc_byte(crc16_of(first), (c % 256) as u8));
    lemma_crc_of_own_bytes(c);
}

} // verus!
