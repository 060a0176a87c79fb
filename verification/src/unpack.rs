//! Unpacking an archive into its entries.

use crate::entry::{Entry, EntryView};
use crate::layout::{be32_value, get_be32, END_MARK, HEADER_LEN, NAME_LEN};
use vstd::prelude::*;
use vstd::slice::slice_to_vec;

verus! {

/// Why the scan of an archive stopped.
#[derive(Clone, Copy, Debug, PartialEq, Eq, Structural)]
pub enum Stop {
    /// Fewer than sixteen bytes were left: no further header.
    EndOfData,
    /// A header held the end mark `0xFFFFFFFF` as its length.
    EndMark,
    /// A header held a length below sixteen.
    ShortLength,
    /// A header declared more payload than the archive has left. Only this
    /// stop is a failure: the archive is malformed.
    TruncatedPayload,
}

/// What stands at one position of an archive: an entry, or the reason why
/// none can be read there.
pub enum StepView {
    /// The entry that starts there.
    Entry(EntryView),
    /// Why no entry starts there.
    Stop(Stop),
}

/// Reads `data` at `pos`.
///
/// With fewer than sixteen bytes left there is no header. Else the first
/// four bytes are the length, and the end mark or a length below sixteen
/// ends the archive. Any other length has to be covered by the bytes left
/// from `pos` on: the twelve bytes behind the length are the name field and
/// the rest up to the length is the payload.
pub open spec fn step_at(data: Seq<u8>, pos: int) -> StepView {
    if pos < 0 || data.len() - pos < HEADER_LEN {
        StepView::Stop(Stop::EndOfData)
    } else {
        let length = be32_value(data.subrange(pos, pos + 4));
        if length == END_MARK {
            StepView::Stop(Stop::EndMark)
        } else if length < HEADER_LEN {
            StepView::Stop(Stop::ShortLength)
        } else if data.len() - pos < length {
            StepView::Stop(Stop::TruncatedPayload)
        } else {
            StepView::Entry(
                EntryView {
                    length: length as u32,
                    name: data.subrange(pos + 4, pos + HEADER_LEN),
                    payload: data.subrange(pos + HEADER_LEN, pos + length),
                },
            )
        }
    }
}

/// The result of scanning an archive from some position on.
pub struct ScanView {
    /// The entries read, in their order.
    pub entries: Seq<EntryView>,
    /// Why no further entry was read.
    pub stop: Stop,
    /// Where the scan stopped: the position behind the last entry read.
    pub stopped_at: int,
}

/// Scans `data` from `pos` on: reads entry after entry, each where the one
/// before it ends, until a position holds none.
pub open spec fn scan_from(data: Seq<u8>, pos: int) -> ScanView
    decreases data.len() - pos,
{
    match step_at(data, pos) {
        StepView::Stop(stop) => ScanView { entries: Seq::empty(), stop, stopped_at: pos },
        StepView::Entry(entry) => {
            let rest = scan_from(data, pos + entry.length);
            ScanView {
                entries: seq![entry] + rest.entries,
                stop: rest.stop,
                stopped_at: rest.stopped_at,
            }
        },
    }
}

/// The result of scanning a whole archive.
pub open spec fn scan(data: Seq<u8>) -> ScanView {
    scan_from(data, 0)
}

/// An entry read from an archive is well formed and lies within it.
pub proof fn lemma_step_entry(data: Seq<u8>, pos: int)
    requires
        step_at(data, pos) is Entry,
    ensures
        step_at(data, pos)->Entry_0.wf(),
        0 <= pos,
        pos + step_at(data, pos)->Entry_0.length <= data.len(),
{
    let head = data.subrange(pos, pos + 4);
    assert(0 <= be32_value(head) <= u32::MAX);
}

/// Every entry that a scan reads is well formed: its length is at least
/// sixteen and not the end mark, and its payload has that length less
/// sixteen.
pub proof fn lemma_scan_entries_wf(data: Seq<u8>, pos: int)
    ensures
        forall|i: int|
            0 <= i < scan_from(data, pos).entries.len() ==> (#[trigger] scan_from(
                data,
                pos,
            ).entries[i]).wf(),
    decreases data.len() - pos,
{
    match step_at(data, pos) {
        StepView::Stop(_) => {},
        StepView::Entry(entry) => {
            lemma_step_entry(data, pos);
            lemma_scan_entries_wf(data, pos + entry.length);
        },
    }
}

/// What was read at one position of an archive.
#[derive(Debug, PartialEq, Eq)]
pub enum Step {
    /// An entry; the next one starts its length further on.
    Entry(Entry),
    /// No entry.
    Stop(Stop),
}

impl View for Step {
    type V = StepView;

    open spec fn view(&self) -> StepView {
        match self {
            Step::Entry(entry) => StepView::Entry(entry@),
            Step::Stop(stop) => StepView::Stop(*stop),
        }
    }
}

/// Reads the entry of `data` that starts at `pos`, or says why there is
/// none.
pub fn read_entry(data: &[u8], pos: usize) -> (step: Step)
    ensures
        step@ == step_at(data@, pos as int),
{
    if pos > data.len() || data.len() - pos < HEADER_LEN as usize {
        return Step::Stop(Stop::EndOfData);
    }
    let length = get_be32(data, pos);
    if length == END_MARK {
        return Step::Stop(Stop::EndMark);
    }
    if length < HEADER_LEN {
        return Step::Stop(Stop::ShortLength);
    }
    if data.len() - pos < length as usize {
        return Step::Stop(Stop::TruncatedPayload);
    }
    let mut name = [0u8; 12];
    let mut k: usize = 0;
    while k < NAME_LEN
        invariant
            k <= NAME_LEN,
            pos + HEADER_LEN <= data@.len() <= usize::MAX,
            forall|j: int| 0 <= j < k ==> name@[j] == data@[pos + 4 + j],
        decreases NAME_LEN - k,
    {
        name[k] = data[pos + 4 + k];
        k += 1;
    }
    let payload = slice_to_vec(&data[pos + HEADER_LEN as usize..pos + length as usize]);
    let entry = Entry { length, name, payload };
    assert(entry@.name =~= data@.subrange(pos + 4, pos + HEADER_LEN));
    Step::Entry(entry)
}

/// The outcome of unpacking an archive.
#[derive(Debug, PartialEq, Eq)]
pub struct Extraction {
    /// The entries read, in the order in which they lie in the archive.
    pub entries: Vec<Entry>,
    /// Why no further entry was read.
    pub stop: Stop,
    /// Where the scan stopped: the position behind the last entry read.
    pub stopped_at: usize,
}

impl View for Extraction {
    type V = ScanView;

    open spec fn view(&self) -> ScanView {
        ScanView {
            entries: Seq::new(self.entries@.len(), |i: int| self.entries@[i]@),
            stop: self.stop,
            stopped_at: self.stopped_at as int,
        }
    }
}

impl Extraction {
    /// Whether the archive was malformed: an entry declared more payload
    /// than was left. The entries before it were still read.
    pub fn is_malformed(&self) -> (malformed: bool)
        ensures
            malformed == (self.stop == Stop::TruncatedPayload),
    {
        match self.stop {
            Stop::TruncatedPayload => true,
            _ => false,
        }
    }
}

/// Unpacks an archive: reads its entries from the start, each where the one
/// before it ends.
///
/// The scan ends without failure where fewer than sixteen bytes are left,
/// at a header whose length is the end mark, and at one whose length is
/// below sixteen. It fails at a header that declares more payload than is
/// left; no entry is made for that header.
pub fn extract_fs(data: &[u8]) -> (extraction: Extraction)
    ensures
        extraction@ == scan(data@),
        forall|i: int|
            0 <= i < extraction.entries@.len() ==> (#[trigger] extraction.entries@[i])@.wf(),
{
    let mut entries: Vec<Entry> = Vec::new();
    let mut pos: usize = 0;
    assert(data@.len() == data.len());
    loop
        invariant
            pos <= data@.len() <= usize::MAX,
            scan(data@).entries == Seq::new(entries@.len(), |i: int| entries@[i]@) + scan_from(
                data@,
                pos as int,
            ).entries,
            scan(data@).stop == scan_from(data@, pos as int).stop,
            scan(data@).stopped_at == scan_from(data@, pos as int).stopped_at,
            forall|i: int| 0 <= i < entries@.len() ==> (#[trigger] entries@[i])@.wf(),
        decreases data@.len() - pos,
    {
        match read_entry(data, pos) {
            Step::Stop(stop) => {
                let extraction = Extraction { entries, stop, stopped_at: pos };
                assert(extraction@.entries =~= scan(data@).entries);
                return extraction;
            },
            Step::Entry(entry) => {
                proof {
                    lemma_step_entry(data@, pos as int);
                    let before = Seq::new(entries@.len(), |i: int| entries@[i]@);
                    let after = Seq::new(
                        entries@.push(entry).len(),
                        |i: int| entries@.push(entry)[i]@,
                    );
                    assert(after =~= before + seq![entry@]);
                    assert(scan(data@).entries =~= after + scan_from(
                        data@,
                        pos + entry.length,
                    ).entries);
                }
                pos = pos + entry.length as usize;
                entries.push(entry);
            },
        }
    }
}

} // verus!
