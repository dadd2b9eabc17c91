use vstd::prelude::*;

use crate::drivers::colorful::{spec_encode_frame, spec_report, COMMAND, REPORT_ID};
use crate::lighting::{Frame, Rgb};

verus! {

/// Feature reports of the fixed 602-LED layout are this many bytes long.
pub const RGB_REPORT_SIZE: usize = 604;
/// LEDs that the fixed layout drives.
pub const LED_COUNT: usize = 602;
/// LEDs in each full page of the fixed layout.
pub const LEDS_PER_PAGE: usize = 200;
/// Shortest time between two frames, in microseconds.
pub const FRAME_INTERVAL_US: u64 = 16_667;
/// Page index of the commit report.
pub const COMMIT_PAGE: u8 = 0xff;

/// Why the fixed-layout backend refused a frame or a report.
#[derive(Debug, Clone, Copy, PartialEq, Eq, Structural)]
pub enum BackendError {
    /// A page was handed a number of LEDs other than the one it carries.
    PageLength { index: u8, expected: usize, got: usize },
    /// The commit page was handed LED data.
    CommitNotEmpty,
    /// The page index is not one of the layout's pages.
    UnexpectedPage { index: u8 },
    /// The frame does not hold exactly `LED_COUNT` LEDs.
    FrameLength { expected: usize, got: usize },
    /// A feature report does not start with the RGB report id.
    WrongReportId,
}

/// How many LEDs page `index` of the fixed layout carries, if it is one of its pages.
pub open spec fn page_capacity(index: u8) -> Option<usize> {
    if index <= 2 {
        Some(LEDS_PER_PAGE)
    } else if index == 3 {
        Some(2usize)
    } else if index == COMMIT_PAGE {
        Some(0usize)
    } else {
        None
    }
}

/// What `make_report` returns for page `index` and these pixels.
pub open spec fn spec_make_report(index: u8, pixels: Seq<Rgb>) -> Result<Seq<u8>, BackendError> {
    match page_capacity(index) {
        None => Err(BackendError::UnexpectedPage { index }),
        Some(expected) => if pixels.len() == expected {
            Ok(spec_report(index, pixels))
        } else if index == COMMIT_PAGE {
            Err(BackendError::CommitNotEmpty)
        } else {
            Err(BackendError::PageLength { index, expected, got: pixels.len() as usize })
        },
    }
}

/// Builds the feature report for page `index` of the fixed 602-LED layout:
/// pages 0x00..=0x02 carry 200 LEDs, page 0x03 carries 2, the commit page 0xff none.
pub fn make_report(index: u8, pixels: &[Rgb]) -> (report: Result<[u8; 604], BackendError>)
    ensures
        match report {
            Ok(report) => spec_make_report(index, pixels@) == Ok::<Seq<u8>, BackendError>(
                report@,
            ),
            Err(e) => spec_make_report(index, pixels@) == Err::<Seq<u8>, BackendError>(e),
        },
{
    let mut report = [0u8; 604];
    report[0] = REPORT_ID;
    report[2] = COMMAND;
    report[3] = index;
    if index <= 2 {
        if pixels.len() != LEDS_PER_PAGE {
            return Err(BackendError::PageLength { index, expected: LEDS_PER_PAGE, got: pixels.len() });
        }
        write_pixels(&mut report, pixels);
    } else if index == 3 {
        if pixels.len() != 2 {
            return Err(BackendError::PageLength { index, expected: 2, got: pixels.len() });
        }
        write_pixels(&mut report, pixels);
    } else if index == COMMIT_PAGE {
        if pixels.len() != 0 {
            return Err(BackendError::CommitNotEmpty);
        }
    } else {
        return Err(BackendError::UnexpectedPage { index });
    }
    assert(report@ =~= spec_report(index, pixels@));
    Ok(report)
}

/// Writes three bytes per LED from byte 4 on and leaves every other byte alone.
fn write_pixels(report: &mut [u8; 604], pixels: &[Rgb])
    requires
        pixels@.len() <= LEDS_PER_PAGE,
    ensures
        forall|b: int|
            0 <= b < RGB_REPORT_SIZE ==> #[trigger] final(report)@[b] == if 4 <= b < 4 + 3
                * pixels@.len() {
                crate::drivers::colorful::channel(pixels@[(b - 4) / 3], (b - 4) % 3)
            } else {
                old(report)@[b]
            },
{
    let ghost original = report@;
    let mut slot: usize = 0;
    while slot < pixels.len()
        invariant
            slot <= pixels@.len() <= LEDS_PER_PAGE,
            forall|b: int|
                0 <= b < RGB_REPORT_SIZE ==> #[trigger] report@[b] == if 4 <= b < 4 + 3 * slot {
                    crate::drivers::colorful::channel(pixels@[(b - 4) / 3], (b - 4) % 3)
                } else {
                    original[b]
                },
        decreases pixels@.len() - slot,
    {
        let offset = 4 + slot * 3;
        let pixel = pixels[slot];
        report[offset] = pixel.red;
        report[offset + 1] = pixel.green;
        report[offset + 2] = pixel.blue;
        slot = slot + 1;
    }
}

/// Page `k` (0..=4) of the fixed layout: its index and the LED range it carries.
pub open spec fn frame_page(k: int) -> (u8, int, int) {
    if k == 0 {
        (0x00u8, 0, 200)
    } else if k == 1 {
        (0x01u8, 200, 400)
    } else if k == 2 {
        (0x02u8, 400, 600)
    } else if k == 3 {
        (0x03u8, 600, 602)
    } else {
        (COMMIT_PAGE, 0, 0)
    }
}

/// The reports that carry a frame of exactly `LED_COUNT` LEDs, each with its page
/// index, in sending order: pages 0x00..=0x03, then the commit page.
pub fn frame_reports(frame: &Frame) -> (reports: Result<Vec<(u8, [u8; 604])>, BackendError>)
    ensures
        match reports {
            Ok(reports) => {
                &&& frame@.len() == LED_COUNT
                &&& reports@.len() == 5
                &&& forall|k: int|
                    0 <= k < 5 ==> {
                        let (index, start, end) = frame_page(k);
                        &&& (#[trigger] reports@[k]).0 == index
                        &&& reports@[k].1@ == spec_report(index, frame@.subrange(start, end))
                    }
            },
            Err(e) => frame@.len() != LED_COUNT && e == BackendError::FrameLength {
                expected: LED_COUNT,
                got: frame@.len() as usize,
            },
        },
{
    let pixels = frame.pixels();
    if pixels.len() != LED_COUNT {
        return Err(BackendError::FrameLength { expected: LED_COUNT, got: pixels.len() });
    }
    let mut reports: Vec<(u8, [u8; 604])> = Vec::with_capacity(5);
    let mut k: usize = 0;
    while k < 5
        invariant
            pixels@ == frame@,
            pixels@.len() == LED_COUNT,
            k <= 5,
            reports@.len() == k,
            forall|j: int|
                0 <= j < k ==> {
                    let (index, start, end) = frame_page(j);
                    &&& (#[trigger] reports@[j]).0 == index
                    &&& reports@[j].1@ == spec_report(index, frame@.subrange(start, end))
                },
        decreases 5 - k,
    {
        let (index, start, end): (u8, usize, usize) = if k == 0 {
            (0x00, 0, 200)
        } else if k == 1 {
            (0x01, 200, 400)
        } else if k == 2 {
            (0x02, 400, 600)
        } else if k == 3 {
            (0x03, 600, 602)
        } else {
            (COMMIT_PAGE, 0, 0)
        };
        let chunk = &pixels[start..end];
        match make_report(index, chunk) {
            Ok(report) => reports.push((index, report)),
            Err(e) => return Err(e),
        }
        k = k + 1;
    }
    Ok(reports)
}

/// Checks that a feature report starts with the RGB report id and gives the
/// `wValue` of its SET_REPORT request: feature report type 3 in the high byte,
/// the report id in the low byte.
pub fn feature_report_value(report: &[u8]) -> (value: Result<u16, BackendError>)
    ensures
        match value {
            Ok(v) => report@.len() > 0 && report@[0] == REPORT_ID && v == 0x0301,
            Err(e) => !(report@.len() > 0 && report@[0] == REPORT_ID) && e
                == BackendError::WrongReportId,
        },
{
    if report.len() == 0 || report[0] != REPORT_ID {
        return Err(BackendError::WrongReportId);
    }
    let id: u16 = REPORT_ID as u16;
    let value: u16 = (3u16 << 8u16) | id;
    assert(value == 0x0301) by (bit_vector)
        requires
            id == 1,
            value == (3u16 << 8u16) | id,
    ;
    Ok(value)
}

/// The fixed-layout backend sends, for a frame of `LED_COUNT` LEDs, byte for byte
/// the reports that the Colorful 0x88 codec makes of the same frame.
pub proof fn lemma_fixed_layout_matches_codec(pixels: Seq<Rgb>)
    requires
        pixels.len() == LED_COUNT,
    ensures
        spec_encode_frame(pixels) is Ok,
        spec_encode_frame(pixels)->Ok_0.len() == 5,
        forall|k: int|
            0 <= k < 5 ==> {
                let (index, start, end) = #[trigger] frame_page(k);
                spec_encode_frame(pixels)->Ok_0[k] == spec_report(index, pixels.subrange(start, end))
            },
{
    let reports = spec_encode_frame(pixels)->Ok_0;
    assert forall|k: int| 0 <= k < 5 implies {
        let (index, start, end) = #[trigger] frame_page(k);
        reports[k] == spec_report(index, pixels.subrange(start, end))
    } by {
        if k == 4 {
            assert(pixels.subrange(0, 0) =~= Seq::<Rgb>::empty());
        }
    }
}

} // verus!
