use orgb::backend::{feature_report_value, frame_reports, make_report, BackendError, LED_COUNT};
use orgb::drivers::colorful::{Colorful088Codec, COMMAND, REPORT_ID};
use orgb::lighting::{Frame, Rgb};
use orgb::protocol::ProtocolCodec;

const RED: Rgb = Rgb {
    red: 255,
    green: 0,
    blue: 0,
};
const LEDS_PER_PAGE: usize = 200;

#[test]
fn page_report_contains_each_rgb_pixel() {
    let pixels = vec![RED; LEDS_PER_PAGE];
    let report = make_report(0x00, &pixels).unwrap();

    assert_eq!(&report[0..4], &[REPORT_ID, 0, COMMAND, 0]);
    assert_eq!(&report[4..7], &[255, 0, 0]);
    assert_eq!(&report[601..604], &[255, 0, 0]);
}

#[test]
fn commit_report_has_no_led_data() {
    let report = make_report(0xff, &[]).unwrap();

    assert_eq!(&report[0..4], &[REPORT_ID, 0, COMMAND, 0xff]);
    assert!(report[4..].iter().all(|byte| *byte == 0));
}

#[test]
fn page_lengths_are_validated() {
    assert!(make_report(0x00, &[]).is_err());
    assert!(make_report(0x03, &[RED]).is_err());
}

#[test]
fn page_errors_name_the_problem() {
    assert_eq!(
        make_report(0x03, &[RED]),
        Err(BackendError::PageLength {
            index: 3,
            expected: 2,
            got: 1
        })
    );
    assert_eq!(make_report(0xff, &[RED]), Err(BackendError::CommitNotEmpty));
    assert_eq!(
        make_report(0x04, &[RED, RED]),
        Err(BackendError::UnexpectedPage { index: 4 })
    );
    let last = make_report(0x03, &[RED, Rgb { red: 1, green: 2, blue: 3 }]).unwrap();
    assert_eq!(&last[4..10], &[255, 0, 0, 1, 2, 3]);
    assert!(last[10..].iter().all(|byte| *byte == 0));
}

#[test]
fn frame_is_sent_as_four_pages_and_a_commit() {
    let pixels = (0..LED_COUNT)
        .map(|i| Rgb {
            red: (i % 251) as u8,
            green: (i % 13) as u8,
            blue: (i / 3 % 256) as u8,
        })
        .collect::<Vec<_>>();
    let frame = Frame::from_pixels(pixels);
    let reports = frame_reports(&frame).unwrap();
    let indices = reports.iter().map(|(index, _)| *index).collect::<Vec<_>>();
    assert_eq!(indices, vec![0x00, 0x01, 0x02, 0x03, 0xff]);

    let codec_reports = Colorful088Codec.encode_frame(&frame).unwrap();
    for (k, (_, report)) in reports.iter().enumerate() {
        assert_eq!(report.to_vec(), codec_reports[k]);
    }
}

#[test]
fn frame_of_wrong_length_is_refused() {
    assert_eq!(
        frame_reports(&Frame::solid(600, RED)),
        Err(BackendError::FrameLength {
            expected: 602,
            got: 600
        })
    );
}

#[test]
fn feature_reports_must_carry_the_rgb_report_id() {
    assert_eq!(feature_report_value(&[0x01, 0, 0x88]), Ok(0x0301));
    assert_eq!(
        feature_report_value(&[0x02, 0, 0x88]),
        Err(BackendError::WrongReportId)
    );
    assert_eq!(feature_report_value(&[]), Err(BackendError::WrongReportId));
}
