//! Firmware flashing decisions: recognising the bootloader, the handshake
//! that brings it to the YMODEM receiver, finding the re-enumerated device,
//! and the progress reported at each stage.
use vstd::prelude::*;

use crate::error::{error_message, CoreError};
use crate::types::{FirmwareProgress, FirmwareStage, SerialDevice};

verus! {

pub const CRC_REQUEST: u8 = 0x43;

/// What the bootloader showed.
#[derive(Debug, Clone, Copy, PartialEq, Eq, Structural)]
pub enum BootloaderState {
    /// The `##PICO_BOOT##` prompt of a bootloader waiting for a key.
    Prompt,
    /// The bootloader's `Main Menu`.
    Menu,
    /// A YMODEM receiver already requesting the file.
    Ymodem,
}

/// `Main Menu`
pub open spec fn menu_marker() -> Seq<u8> {
    seq![0x4Du8, 0x61, 0x69, 0x6E, 0x20, 0x4D, 0x65, 0x6E, 0x75]
}

/// `##PICO_BOOT##`
pub open spec fn prompt_marker() -> Seq<u8> {
    seq![0x23u8, 0x23, 0x50, 0x49, 0x43, 0x4F, 0x5F, 0x42, 0x4F, 0x4F, 0x54, 0x23, 0x23]
}

/// `pat` occurs somewhere in `s`.
pub open spec fn contains_bytes(s: Seq<u8>, pat: Seq<u8>) -> bool {
    exists|i: int| 0 <= i && i + pat.len() <= s.len() && #[trigger] s.subrange(i, i + pat.len()) == pat
}

/// Scans `chunk` for two consecutive 'C' requests, counting on from `count`.
/// Returns the counter after the scan (stopping where the pair completes) and
/// whether it completed.
pub open spec fn crc_scan(count: nat, chunk: Seq<u8>) -> (nat, bool)
    decreases chunk.len(),
{
    if chunk.len() == 0 {
        (count, false)
    } else if chunk[0] == CRC_REQUEST {
        if count + 1 >= 2 {
            (count + 1, true)
        } else {
            crc_scan(count + 1, chunk.drop_first())
        }
    } else {
        crc_scan(0, chunk.drop_first())
    }
}

/// The bootloader state the transcript shows: the menu takes priority over
/// the prompt, and either over the 'C' requests of the last chunk.
pub open spec fn observed(transcript: Seq<u8>, chunk: Seq<u8>, count: nat) -> (Option<BootloaderState>, nat) {
    if contains_bytes(transcript, menu_marker()) {
        (Some(BootloaderState::Menu), count)
    } else if contains_bytes(transcript, prompt_marker()) {
        (Some(BootloaderState::Prompt), count)
    } else {
        let (c, found) = crc_scan(count, chunk);
        (if found { Some(BootloaderState::Ymodem) } else { None }, c)
    }
}

fn contains_pattern(s: &[u8], pat: &[u8]) -> (r: bool)
    ensures
        r == contains_bytes(s@, pat@),
{
    if pat.len() > s.len() {
        return false;
    }
    let mut i: usize = 0;
    while i <= s.len() - pat.len()
        invariant
            pat.len() <= s.len(),
            0 <= i <= s.len() - pat.len() + 1,
            forall|k: int| 0 <= k < i ==> #[trigger] s@.subrange(k, k + pat.len()) != pat@,
        decreases s.len() - i,
    {
        let mut j: usize = 0;
        let mut same = true;
        while j < pat.len()
            invariant
                0 <= j <= pat.len(),
                i + pat.len() <= s.len(),
                same == (forall|m: int| 0 <= m < j ==> s@[i + m] == pat@[m]),
            decreases pat.len() - j,
        {
            if s[i + j] != pat[j] {
                same = false;
            }
            j = j + 1;
        }
        if same {
            assert(s@.subrange(i as int, i + pat.len()) =~= pat@);
            return true;
        }
        assert(!same);
        assert(s@.subrange(i as int, i + pat.len()) != pat@) by {
            let m = choose|m: int| 0 <= m < pat.len() && s@[i + m] != pat@[m];
            assert(s@.subrange(i as int, i + pat.len())[m] == s@[i + m]);
        }
        i = i + 1;
    }
    assert forall|k: int| 0 <= k && k + pat.len() <= s.len() implies #[trigger] s@.subrange(k, k + pat.len()) != pat@ by {
        assert(k < i);
    }
    false
}

/// Recognises the bootloader from the transcript so far and the chunk just
/// received; `consecutive_crc` counts 'C' requests across chunks.
pub fn observe_bootloader(transcript: &[u8], chunk: &[u8], consecutive_crc: &mut usize) -> (r: Option<BootloaderState>)
    requires
        *old(consecutive_crc) < usize::MAX - chunk.len(),
    ensures
        (r, *final(consecutive_crc) as nat) == observed(transcript@, chunk@, *old(consecutive_crc) as nat),
        (exists|i: int| #[trigger] main_menu_at(transcript@, i)) ==> r == Some(BootloaderState::Menu),
{
    proof {
        if exists|i: int| #[trigger] main_menu_at(transcript@, i) {
            let i = choose|i: int| #[trigger] main_menu_at(transcript@, i);
            lemma_menu_anywhere_in_transcript(transcript@, chunk@, *old(consecutive_crc) as nat, i);
        }
    }
    let menu: [u8; 9] = [0x4D, 0x61, 0x69, 0x6E, 0x20, 0x4D, 0x65, 0x6E, 0x75];
    let prompt: [u8; 13] = [0x23, 0x23, 0x50, 0x49, 0x43, 0x4F, 0x5F, 0x42, 0x4F, 0x4F, 0x54, 0x23, 0x23];
    assert(menu@ =~= menu_marker());
    assert(prompt@ =~= prompt_marker());
    if contains_pattern(transcript, &menu) {
        return Some(BootloaderState::Menu);
    }
    if contains_pattern(transcript, &prompt) {
        return Some(BootloaderState::Prompt);
    }
    let ghost c0 = *consecutive_crc as nat;
    let mut i: usize = 0;
    assert(chunk@.skip(0) =~= chunk@);
    while i < chunk.len()
        invariant
            0 <= i <= chunk.len(),
            *consecutive_crc <= c0 + i,
            c0 == *old(consecutive_crc),
            c0 < usize::MAX - chunk.len(),
            !contains_bytes(transcript@, menu_marker()),
            !contains_bytes(transcript@, prompt_marker()),
            !(exists|k: int| #[trigger] main_menu_at(transcript@, k)),
            crc_scan(c0, chunk@) == crc_scan(*consecutive_crc as nat, chunk@.skip(i as int)),
        decreases chunk.len() - i,
    {
        assert(chunk@.skip(i as int)[0] == chunk@[i as int]);
        assert(chunk@.skip(i as int).drop_first() =~= chunk@.skip(i + 1));
        if chunk[i] == CRC_REQUEST {
            *consecutive_crc = *consecutive_crc + 1;
            if *consecutive_crc >= 2 {
                assert(crc_scan(c0, chunk@) == (*consecutive_crc as nat, true));
                return Some(BootloaderState::Ymodem);
            }
        } else {
            *consecutive_crc = 0;
        }
        i = i + 1;
    }
    None
}

/// The keys that take a recognised bootloader to its YMODEM receiver.
pub enum SelectionStep {
    /// Write this byte to the port.
    Key(u8),
    /// Wait this many milliseconds.
    Pause(u64),
}

/// At the prompt: '0' (enter the menu), a 200 ms pause, then '1' (upload);
/// at the menu: '1'; a receiver already running needs nothing.
pub fn selection_steps(state: BootloaderState) -> (steps: Vec<SelectionStep>)
    ensures
        state == BootloaderState::Prompt ==> steps@.len() == 3 && (steps@[0] matches SelectionStep::Key(
            0x30,
        )) && (steps@[1] matches SelectionStep::Pause(200)) && (steps@[2] matches SelectionStep::Key(0x31)),
        state == BootloaderState::Menu ==> steps@.len() == 1 && (steps@[0] matches SelectionStep::Key(0x31)),
        state == BootloaderState::Ymodem ==> steps@.len() == 0,
{
    let mut steps: Vec<SelectionStep> = Vec::new();
    match state {
        BootloaderState::Prompt => {
            steps.push(SelectionStep::Key(0x30));
            steps.push(SelectionStep::Pause(200));
            steps.push(SelectionStep::Key(0x31));
        },
        BootloaderState::Menu => {
            steps.push(SelectionStep::Key(0x31));
        },
        BootloaderState::Ymodem => {},
    }
    steps
}

/// Time allowed for the handshake.
pub const HANDSHAKE_TIMEOUT_MS: u64 = 6000;
/// A silent bootloader is probed with '0' once this much time has passed
/// without any 'C' request: an active receiver asks about once a second.
pub const MENU_PROBE_AFTER_MS: u64 = 2500;

/// The handshake with a freshly opened bootloader port.
pub struct Handshake {
    pub transcript: Vec<u8>,
    pub consecutive_crc: usize,
    pub menu_probe_sent: bool,
}

impl Handshake {
    pub fn new() -> (h: Handshake)
        ensures
            h.transcript@ == Seq::<u8>::empty(),
            h.consecutive_crc == 0,
            !h.menu_probe_sent,
    {
        Handshake { transcript: Vec::new(), consecutive_crc: 0, menu_probe_sent: false }
    }

    /// Bytes arrived; returns the bootloader state once it is recognised.
    pub fn on_data(&mut self, chunk: &[u8]) -> (r: Option<BootloaderState>)
        requires
            old(self).consecutive_crc < usize::MAX - chunk.len(),
        ensures
            final(self).transcript@ == old(self).transcript@ + chunk@,
            final(self).menu_probe_sent == old(self).menu_probe_sent,
            (r, final(self).consecutive_crc as nat) == observed(
                old(self).transcript@ + chunk@,
                chunk@,
                old(self).consecutive_crc as nat,
            ),
            (exists|i: int| #[trigger] main_menu_at(old(self).transcript@ + chunk@, i)) ==> r == Some(
                BootloaderState::Menu,
            ),
    {
        let mut k: usize = 0;
        let ghost start = self.transcript@;
        while k < chunk.len()
            invariant
                0 <= k <= chunk.len(),
                self.transcript@ == start + chunk@.take(k as int),
                self.consecutive_crc == old(self).consecutive_crc,
                self.menu_probe_sent == old(self).menu_probe_sent,
            decreases chunk.len() - k,
        {
            self.transcript.push(chunk[k]);
            assert(chunk@.take(k + 1) =~= chunk@.take(k as int).push(chunk@[k as int]));
            k = k + 1;
        }
        assert(chunk@.take(chunk.len() as int) =~= chunk@);
        let mut count = self.consecutive_crc;
        let r = observe_bootloader(&self.transcript, chunk, &mut count);
        self.consecutive_crc = count;
        r
    }

    /// A read timed out after `elapsed_ms` of handshake: returns whether to
    /// write the menu probe '0' now.
    pub fn on_idle(&mut self, elapsed_ms: u64) -> (probe: bool)
        ensures
            probe == (!old(self).menu_probe_sent && old(self).consecutive_crc == 0 && elapsed_ms
                >= MENU_PROBE_AFTER_MS),
            final(self).menu_probe_sent == (old(self).menu_probe_sent || probe),
            final(self).transcript == old(self).transcript,
            final(self).consecutive_crc == old(self).consecutive_crc,
    {
        if !self.menu_probe_sent && self.consecutive_crc == 0 && elapsed_ms >= MENU_PROBE_AFTER_MS {
            self.menu_probe_sent = true;
            true
        } else {
            false
        }
    }

    /// The error when nothing was recognised in time.
    pub fn timeout_error() -> (e: CoreError)
        ensures
            e matches CoreError::Timeout(m) && m@ == "waiting for bootloader menu or YMODEM receiver"@,
    {
        CoreError::timeout("waiting for bootloader menu or YMODEM receiver")
    }
}

/// Time allowed for the device to come back as a bootloader.
pub const SEARCH_TIMEOUT_MS: u64 = 8000;

/// What to do in one round of the search for the rebooted device.
pub enum SearchDecision {
    Found(SerialDevice),
    Fail(CoreError),
    /// Look again after 300 ms.
    Retry,
}

/// Cancellation wins, then a found device, then the deadline.
pub fn search_step(cancelled: bool, found: Option<SerialDevice>, elapsed_ms: u64) -> (d: SearchDecision)
    ensures
        cancelled ==> d matches SearchDecision::Fail(CoreError::Cancelled),
        !cancelled && found is Some ==> d == SearchDecision::Found(found.unwrap()),
        !cancelled && found is None && elapsed_ms > SEARCH_TIMEOUT_MS ==> (d matches SearchDecision::Fail(
            CoreError::Timeout(m),
        ) && m@ == "searching for bootloader"@),
        !cancelled && found is None && elapsed_ms <= SEARCH_TIMEOUT_MS ==> d is Retry,
{
    if cancelled {
        return SearchDecision::Fail(CoreError::Cancelled);
    }
    match found {
        Some(device) => SearchDecision::Found(device),
        None => if elapsed_ms > SEARCH_TIMEOUT_MS {
            SearchDecision::Fail(CoreError::timeout("searching for bootloader"))
        } else {
            SearchDecision::Retry
        },
    }
}

/// A flash may start only when none is running and the image is a file.
pub fn start_check(running: bool, firmware_is_file: bool) -> (r: Result<(), CoreError>)
    ensures
        running ==> r matches Err(CoreError::DeviceBusy),
        !running && !firmware_is_file ==> (r matches Err(CoreError::Other(m)) && m@
            == "firmware file does not exist"@),
        !running && firmware_is_file ==> r is Ok,
{
    if running {
        return Err(CoreError::DeviceBusy);
    }
    if !firmware_is_file {
        return Err(CoreError::other("firmware file does not exist"));
    }
    Ok(())
}

/// Percent and message key reported when a stage begins.
pub open spec fn stage_entry(stage: FirmwareStage) -> (u8, Seq<char>) {
    match stage {
        FirmwareStage::Connecting => (0, "connecting"@),
        FirmwareStage::Rebooting => (2, "rebooting"@),
        FirmwareStage::SearchingBootloader => (4, "searchingBootloader"@),
        FirmwareStage::Handshaking => (5, "handshaking"@),
        FirmwareStage::Uploading => (6, "uploading"@),
        FirmwareStage::Finishing => (98, "finishing"@),
        FirmwareStage::Completed => (100, "completed"@),
        FirmwareStage::Cancelled => (0, "cancelled"@),
        FirmwareStage::Failed => (0, "failed"@),
        FirmwareStage::Idle => (0, "idle"@),
    }
}

/// The progress reported when `stage` begins.
pub fn stage_progress(stage: FirmwareStage) -> (p: FirmwareProgress)
    ensures
        p.stage == stage,
        (p.percent, p.message_key@) == stage_entry(stage),
        p.detail is None,
{
    let (percent, key) = match stage {
        FirmwareStage::Connecting => (0u8, "connecting"),
        FirmwareStage::Rebooting => (2u8, "rebooting"),
        FirmwareStage::SearchingBootloader => (4u8, "searchingBootloader"),
        FirmwareStage::Handshaking => (5u8, "handshaking"),
        FirmwareStage::Uploading => (6u8, "uploading"),
        FirmwareStage::Finishing => (98u8, "finishing"),
        FirmwareStage::Completed => (100u8, "completed"),
        FirmwareStage::Cancelled => (0u8, "cancelled"),
        FirmwareStage::Failed => (0u8, "failed"),
        FirmwareStage::Idle => (0u8, "idle"),
    };
    FirmwareProgress { stage, percent, message_key: String::from_str(key), detail: None }
}

/// The last progress of a flash: completed, cancelled, or failed with the
/// error's text.
pub fn final_progress(result: Result<(), CoreError>) -> (p: FirmwareProgress)
    ensures
        result is Ok ==> p.stage == FirmwareStage::Completed && p.percent == 100 && p.message_key@
            == "completed"@ && p.detail is None,
        result matches Err(CoreError::Cancelled) ==> p.stage == FirmwareStage::Cancelled && p.percent
            == 0 && p.message_key@ == "cancelled"@ && p.detail is None,
        result is Err && !(result->Err_0 is Cancelled) ==> p.stage == FirmwareStage::Failed
            && p.percent == 0 && p.message_key@ == "failed"@ && (p.detail matches Some(d) && d@
            == error_message(result->Err_0)),
{
    match result {
        Ok(()) => stage_progress(FirmwareStage::Completed),
        Err(CoreError::Cancelled) => stage_progress(FirmwareStage::Cancelled),
        Err(e) => {
            let mut p = stage_progress(FirmwareStage::Failed);
            p.detail = Some(e.message());
            p
        },
    }
}

/// Two 'C' requests in a row at `i`.
pub open spec fn request_pair_at(chunk: Seq<u8>, i: int) -> bool {
    0 <= i && i + 1 < chunk.len() && chunk[i] == CRC_REQUEST && chunk[i + 1] == CRC_REQUEST
}

/// A receiver is only recognised after two consecutive 'C' requests: a scan
/// starting from no pending request reports one only where the chunk holds
/// "CC".
pub proof fn lemma_receiver_needs_two_requests(count: nat, chunk: Seq<u8>)
    requires
        count == 0,
    ensures
        crc_scan(count, chunk).1 ==> exists|i: int| #[trigger] request_pair_at(chunk, i),
    decreases chunk.len(),
{
    lemma_scan_pair(count, chunk);
}

proof fn lemma_scan_pair(count: nat, chunk: Seq<u8>)
    requires
        count <= 1,
    ensures
        crc_scan(count, chunk).1 ==> (count == 1 && chunk.len() > 0 && chunk[0] == CRC_REQUEST) || exists|i: int| #[trigger] request_pair_at(chunk, i),
    decreases chunk.len(),
{
    if chunk.len() > 0 {
        let rest = chunk.drop_first();
        if chunk[0] == CRC_REQUEST {
            if count + 1 < 2 {
                lemma_scan_pair(count + 1, rest);
                if crc_scan(count, chunk).1 {
                    if count + 1 == 1 && rest.len() > 0 && rest[0] == CRC_REQUEST {
                        assert(chunk[1] == CRC_REQUEST);
                        assert(request_pair_at(chunk, 0));
                    } else {
                        let i = choose|i: int| #[trigger] request_pair_at(rest, i);
                        assert(chunk[i + 1] == rest[i] && chunk[i + 2] == rest[i + 1]);
                        assert(request_pair_at(chunk, i + 1));
                    }
                }
            }
        } else {
            lemma_scan_pair(0, rest);
            if crc_scan(count, chunk).1 {
                let i = choose|i: int| #[trigger] request_pair_at(rest, i);
                assert(chunk[i + 1] == rest[i] && chunk[i + 2] == rest[i + 1]);
                assert(request_pair_at(chunk, i + 1));
            }
        }
    }
}

/// `Main Menu` appears in `t` at `i`.
pub open spec fn main_menu_at(t: Seq<u8>, i: int) -> bool {
    &&& 0 <= i
    &&& i + 9 <= t.len()
    &&& t[i] == 0x4D && t[i + 1] == 0x61 && t[i + 2] == 0x69 && t[i + 3] == 0x6E && t[i + 4] == 0x20
    &&& t[i + 5] == 0x4D && t[i + 6] == 0x65 && t[i + 7] == 0x6E && t[i + 8] == 0x75
}

/// Once the transcript holds the bootloader's `Main Menu`, the menu is what
/// is recognised, wherever the chunk boundaries fell and whatever else the
/// transcript or the chunk hold.
pub proof fn lemma_menu_anywhere_in_transcript(transcript: Seq<u8>, chunk: Seq<u8>, count: nat, i: int)
    requires
        main_menu_at(transcript, i),
    ensures
        observed(transcript, chunk, count).0 == Some(BootloaderState::Menu),
        contains_bytes(transcript, menu_marker()),
{
    assert(transcript.subrange(i, i + 9) =~= menu_marker());
    assert(contains_bytes(transcript, menu_marker()));
}

/// The menu split across two reads is recognised on the second: after
/// reading `first` then `second`, a `Main Menu` anywhere in what was read
/// gives the menu.
pub proof fn lemma_menu_split_across_reads(first: Seq<u8>, second: Seq<u8>, count: nat, i: int)
    requires
        main_menu_at(first + second, i),
    ensures
        observed(first + second, second, count).0 == Some(BootloaderState::Menu),
{
    lemma_menu_anywhere_in_transcript(first + second, second, count, i);
}

/// `##PICO_BOOT##` appears in `t` at `i`.
pub open spec fn pico_boot_at(t: Seq<u8>, i: int) -> bool {
    &&& 0 <= i
    &&& i + 13 <= t.len()
    &&& t[i] == 0x23 && t[i + 1] == 0x23 && t[i + 2] == 0x50 && t[i + 3] == 0x49 && t[i + 4] == 0x43
    &&& t[i + 5] == 0x4F && t[i + 6] == 0x5F && t[i + 7] == 0x42 && t[i + 8] == 0x4F && t[i + 9] == 0x4F
    &&& t[i + 10] == 0x54 && t[i + 11] == 0x23 && t[i + 12] == 0x23
}

/// Without a menu, a `##PICO_BOOT##` prompt anywhere in the transcript is
/// recognised as the prompt.
pub proof fn lemma_prompt_anywhere_in_transcript(transcript: Seq<u8>, chunk: Seq<u8>, count: nat, i: int)
    requires
        pico_boot_at(transcript, i),
        !(exists|k: int| #[trigger] main_menu_at(transcript, k)),
    ensures
        observed(transcript, chunk, count).0 == Some(BootloaderState::Prompt),
{
    assert(transcript.subrange(i, i + 13) =~= prompt_marker());
    assert(contains_bytes(transcript, prompt_marker()));
    if contains_bytes(transcript, menu_marker()) {
        let k = choose|k: int| 0 <= k && k + 9 <= transcript.len() && #[trigger] transcript.subrange(k, k + 9)
            == menu_marker();
        assert(transcript.subrange(k, k + 9)[0] == transcript[k]);
        assert(transcript[k + 1] == transcript.subrange(k, k + 9)[1]);
        assert(transcript[k + 2] == transcript.subrange(k, k + 9)[2]);
        assert(transcript[k + 3] == transcript.subrange(k, k + 9)[3]);
        assert(transcript[k + 4] == transcript.subrange(k, k + 9)[4]);
        assert(transcript[k + 5] == transcript.subrange(k, k + 9)[5]);
        assert(transcript[k + 6] == transcript.subrange(k, k + 9)[6]);
        assert(transcript[k + 7] == transcript.subrange(k, k + 9)[7]);
        assert(transcript[k + 8] == transcript.subrange(k, k + 9)[8]);
        assert(main_menu_at(transcript, k));
    }
}

/// A scan that meets two consecutive 'C' requests reports a receiver.
proof fn lemma_scan_finds_pair(count: nat, chunk: Seq<u8>, i: int)
    requires
        request_pair_at(chunk, i),
    ensures
        crc_scan(count, chunk).1,
    decreases chunk.len(),
{
    let rest = chunk.drop_first();
    if i == 0 {
        if count + 1 < 2 {
            assert(rest.len() > 0 && rest[0] == CRC_REQUEST);
            assert(crc_scan(count + 1, rest).1);
            assert(crc_scan(count, chunk) == crc_scan(count + 1, rest));
        }
    } else {
        assert(request_pair_at(rest, i - 1)) by {
            assert(rest[i - 1] == chunk[i] && rest[i] == chunk[i + 1]);
        }
        if chunk[0] == CRC_REQUEST {
            if count + 1 < 2 {
                lemma_scan_finds_pair(count + 1, rest, i - 1);
            }
        } else {
            lemma_scan_finds_pair(0, rest, i - 1);
        }
    }
}

/// With neither marker in the transcript, two consecutive 'C' requests in
/// the chunk mean a YMODEM receiver is already waiting.
pub proof fn lemma_two_requests_recognised(transcript: Seq<u8>, chunk: Seq<u8>, count: nat, i: int)
    requires
        request_pair_at(chunk, i),
        !(exists|k: int| #[trigger] main_menu_at(transcript, k)),
        !(exists|k: int| #[trigger] pico_boot_at(transcript, k)),
    ensures
        observed(transcript, chunk, count).0 == Some(BootloaderState::Ymodem),
{
    lemma_scan_finds_pair(count, chunk, i);
    if contains_bytes(transcript, menu_marker()) {
        let k = choose|k: int| 0 <= k && k + 9 <= transcript.len() && #[trigger] transcript.subrange(k, k + 9)
            == menu_marker();
        let w = transcript.subrange(k, k + 9);
        assert(w[0] == transcript[k] && w[1] == transcript[k + 1] && w[2] == transcript[k + 2]);
        assert(w[3] == transcript[k + 3] && w[4] == transcript[k + 4] && w[5] == transcript[k + 5]);
        assert(w[6] == transcript[k + 6] && w[7] == transcript[k + 7] && w[8] == transcript[k + 8]);
        assert(main_menu_at(transcript, k));
    }
    if contains_bytes(transcript, prompt_marker()) {
        let k = choose|k: int| 0 <= k && k + 13 <= transcript.len() && #[trigger] transcript.subrange(k, k + 13)
            == prompt_marker();
        let w = transcript.subrange(k, k + 13);
        assert(w[0] == transcript[k] && w[1] == transcript[k + 1] && w[2] == transcript[k + 2]);
        assert(w[3] == transcript[k + 3] && w[4] == transcript[k + 4] && w[5] == transcript[k + 5]);
        assert(w[6] == transcript[k + 6] && w[7] == transcript[k + 7] && w[8] == transcript[k + 8]);
        assert(w[9] == transcript[k + 9] && w[10] == transcript[k + 10] && w[11] == transcript[k + 11]);
        assert(w[12] == transcript[k + 12]);
        assert(pico_boot_at(transcript, k));
    }
}

} // verus!
