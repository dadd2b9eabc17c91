use vstd::prelude::*;

use crate::board::device::{BoardProfile, BrandId};
use crate::board::topology::{spec_from_profiles, Topology, TopologyError};
use crate::config::{profile_is_sound, select_outcome, ConfigError, ProfileCatalog};
use crate::drivers::DriverError;
use crate::lighting::{Frame, Rgb};
use crate::protocol::{CodecError, ProtocolCodec};
use crate::smbios::BoardIdentity;

verus! {

/// First byte of every report: the HID report id.
pub const REPORT_ID: u8 = 0x01;
/// Third byte of every report: the framebuffer command.
pub const COMMAND: u8 = 0x88;
/// Length of every report, in bytes.
pub const REPORT_SIZE: usize = 604;
/// Most LEDs that one data page carries.
pub const LEDS_PER_PAGE: usize = 200;
/// Page index of the report that commits a frame.
pub const COMMIT_PAGE: u8 = 0xff;

/// Channel `k` (0 red, 1 green, 2 blue) of a color.
pub open spec fn channel(color: Rgb, k: int) -> u8 {
    if k == 0 {
        color.red
    } else if k == 1 {
        color.green
    } else {
        color.blue
    }
}

/// Byte `b` of the report for page `index` carrying `pixels`: report id, a zero,
/// the command and the page index, then three bytes per LED, then zero padding.
pub open spec fn report_byte(index: u8, pixels: Seq<Rgb>, b: int) -> u8 {
    if b == 0 {
        REPORT_ID
    } else if b == 2 {
        COMMAND
    } else if b == 3 {
        index
    } else if 4 <= b < 4 + 3 * pixels.len() {
        channel(pixels[(b - 4) / 3], (b - 4) % 3)
    } else {
        0
    }
}

/// The whole report for page `index` carrying `pixels`.
pub open spec fn spec_report(index: u8, pixels: Seq<Rgb>) -> Seq<u8> {
    Seq::new(REPORT_SIZE as nat, |b: int| report_byte(index, pixels, b))
}

/// What `make_report` returns: a data page (0x00..=0xfe) carries one to
/// `LEDS_PER_PAGE` LEDs, the commit page (0xff) carries none.
pub open spec fn spec_make_report(index: u8, pixels: Seq<Rgb>) -> Result<Seq<u8>, CodecError> {
    if index == COMMIT_PAGE {
        if pixels.len() == 0 {
            Ok(spec_report(index, pixels))
        } else {
            Err(CodecError::CommitNotEmpty)
        }
    } else if 1 <= pixels.len() <= LEDS_PER_PAGE {
        Ok(spec_report(index, pixels))
    } else {
        Err(CodecError::PageLength { index, got: pixels.len() as usize })
    }
}

/// Number of data pages for `n` LEDs.
pub open spec fn spec_page_count(n: int) -> int {
    (n + LEDS_PER_PAGE - 1) / LEDS_PER_PAGE as int
}

/// The LEDs that data page `k` carries.
pub open spec fn page_pixels(pixels: Seq<Rgb>, k: int) -> Seq<Rgb> {
    let start = k * LEDS_PER_PAGE;
    let end = if (k + 1) * LEDS_PER_PAGE <= pixels.len() {
        (k + 1) * LEDS_PER_PAGE
    } else {
        pixels.len() as int
    };
    pixels.subrange(start, end)
}

/// The reports for a whole frame: one data page per `LEDS_PER_PAGE` LEDs
/// (the last one may be shorter), then the empty commit page.
pub open spec fn spec_encode_frame(pixels: Seq<Rgb>) -> Result<Seq<Seq<u8>>, CodecError> {
    if pixels.len() == 0 {
        Err(CodecError::EmptyFrame)
    } else if spec_page_count(pixels.len() as int) > 0xff {
        Err(CodecError::TooManyPages { page_count: spec_page_count(pixels.len() as int) as usize })
    } else {
        let pages = spec_page_count(pixels.len() as int);
        Ok(
            Seq::new(
                (pages + 1) as nat,
                |k: int|
                    if k < pages {
                        spec_report(k as u8, page_pixels(pixels, k))
                    } else {
                        spec_report(COMMIT_PAGE, Seq::empty())
                    },
            ),
        )
    }
}

/// A frame can be encoded exactly when it holds at least one LED and at most
/// 255 pages of them; it then takes one report per started page plus the commit
/// report, each `REPORT_SIZE` bytes long, and page `k` carries index `k`.
pub proof fn lemma_encode_frame_shape(pixels: Seq<Rgb>)
    ensures
        spec_encode_frame(pixels) is Ok <==> 1 <= pixels.len() <= 0xff * LEDS_PER_PAGE,
        spec_encode_frame(pixels) is Ok ==> {
            let reports = spec_encode_frame(pixels)->Ok_0;
            &&& reports.len() == spec_page_count(pixels.len() as int) + 1
            &&& forall|k: int| 0 <= k < reports.len() ==> (#[trigger] reports[k]).len() == REPORT_SIZE
            &&& forall|k: int|
                0 <= k < reports.len() - 1 ==> (#[trigger] reports[k])[3] == k as u8
            &&& reports[reports.len() - 1][3] == COMMIT_PAGE
        },
{
}

/// In the reports of an encodable frame, channel `k` of LED `i` is byte
/// `4 + 3 * (i % LEDS_PER_PAGE) + k` of report `i / LEDS_PER_PAGE`: every LED can be
/// read back from where the encoder put it.
pub proof fn lemma_encode_places_every_led(pixels: Seq<Rgb>, i: int, k: int)
    requires
        spec_encode_frame(pixels) is Ok,
        0 <= i < pixels.len(),
        0 <= k < 3,
    ensures
        spec_encode_frame(pixels)->Ok_0[i / LEDS_PER_PAGE as int][4 + 3 * (i % LEDS_PER_PAGE as int) + k]
            == channel(pixels[i], k),
{
    let page = i / LEDS_PER_PAGE as int;
    let slot = i % LEDS_PER_PAGE as int;
    let chunk = page_pixels(pixels, page);
    assert(page < spec_page_count(pixels.len() as int));
    assert(chunk[slot] == pixels[i]);
    assert((3 * slot + k) / 3 == slot);
    assert((3 * slot + k) % 3 == k);
}

/// A frame of one color for all `n` LEDs, which is what setting a color
/// sends, is encoded whenever its LEDs fit in 255 pages, and every LED's slot
/// in the reports carries that color.
pub proof fn lemma_solid_frame_encodes(n: nat, color: Rgb, i: int, k: int)
    requires
        1 <= n <= 0xff * LEDS_PER_PAGE,
        0 <= i < n,
        0 <= k < 3,
    ensures
        spec_encode_frame(Seq::new(n, |j: int| color)) is Ok,
        spec_encode_frame(Seq::new(n, |j: int| color))->Ok_0[i / LEDS_PER_PAGE as int][4 + 3 * (i
            % LEDS_PER_PAGE as int) + k] == channel(color, k),
{
    let pixels = Seq::new(n, |j: int| color);
    lemma_encode_frame_shape(pixels);
    lemma_encode_places_every_led(pixels, i, k);
}

/// The commit report carries no LED data: after its four header bytes it is all zeros.
pub proof fn lemma_commit_report_is_empty(pixels: Seq<Rgb>, b: int)
    requires
        spec_encode_frame(pixels) is Ok,
        4 <= b < REPORT_SIZE,
    ensures
        ({
            let reports = spec_encode_frame(pixels)->Ok_0;
            reports[reports.len() - 1][b] == 0
        }),
{
}

/// The Colorful 0x88 framebuffer protocol.
#[derive(Debug, Default, Clone, Copy)]
pub struct Colorful088Codec;

impl Colorful088Codec {
    fn make_report(index: u8, pixels: &[Rgb]) -> (report: Result<Vec<u8>, CodecError>)
        ensures
            match report {
                Ok(report) => spec_make_report(index, pixels@) == Ok::<Seq<u8>, CodecError>(
                    report@,
                ),
                Err(e) => spec_make_report(index, pixels@) == Err::<Seq<u8>, CodecError>(e),
            },
    {
        if index == COMMIT_PAGE {
            if pixels.len() != 0 {
                return Err(CodecError::CommitNotEmpty);
            }
        } else if pixels.len() == 0 || pixels.len() > LEDS_PER_PAGE {
            return Err(CodecError::PageLength { index, got: pixels.len() });
        }
        let report = Self::write_pixels(index, pixels);
        assert(report@ =~= spec_report(index, pixels@));
        Ok(report)
    }

    /// Header, three bytes per LED, zero padding to `REPORT_SIZE`.
    fn write_pixels(index: u8, pixels: &[Rgb]) -> (report: Vec<u8>)
        requires
            pixels@.len() <= LEDS_PER_PAGE,
        ensures
            report@ =~= spec_report(index, pixels@),
    {
        let mut report: Vec<u8> = Vec::with_capacity(REPORT_SIZE);
        report.push(REPORT_ID);
        report.push(0);
        report.push(COMMAND);
        report.push(index);
        let mut slot: usize = 0;
        while slot < pixels.len()
            invariant
                slot <= pixels@.len() <= LEDS_PER_PAGE,
                report@.len() == 4 + 3 * slot,
                forall|b: int| 0 <= b < report@.len() ==> #[trigger] report@[b] == report_byte(index, pixels@, b),
            decreases pixels@.len() - slot,
        {
            let pixel = pixels[slot];
            report.push(pixel.red);
            report.push(pixel.green);
            report.push(pixel.blue);
            slot = slot + 1;
        }
        while report.len() < REPORT_SIZE
            invariant
                4 + 3 * pixels@.len() <= report@.len() <= REPORT_SIZE,
                forall|b: int| 0 <= b < report@.len() ==> #[trigger] report@[b] == report_byte(index, pixels@, b),
            decreases REPORT_SIZE - report@.len(),
        {
            report.push(0);
        }
        report
    }
}

impl ProtocolCodec for Colorful088Codec {
    open spec fn spec_encode(&self, pixels: Seq<Rgb>) -> Result<Seq<Seq<u8>>, CodecError> {
        spec_encode_frame(pixels)
    }

    fn encode_frame(&self, frame: &Frame) -> (reports: Result<Vec<Vec<u8>>, CodecError>) {
        let pixels = frame.pixels();
        let n = pixels.len();
        if n == 0 {
            return Err(CodecError::EmptyFrame);
        }
        let page_count: usize = n / LEDS_PER_PAGE + if n % LEDS_PER_PAGE == 0 { 0 } else { 1 };
        assert(page_count == spec_page_count(n as int));
        if page_count > 0xff {
            return Err(CodecError::TooManyPages { page_count });
        }
        let mut packets: Vec<Vec<u8>> = Vec::with_capacity(page_count + 1);
        let mut index: usize = 0;
        while index < page_count
            invariant
                n == pixels@.len(),
                pixels@ == frame@,
                page_count == spec_page_count(n as int),
                page_count <= 0xff,
                index <= page_count,
                packets@.len() == index,
                forall|k: int|
                    0 <= k < index ==> #[trigger] packets@[k]@ == spec_report(
                        k as u8,
                        page_pixels(pixels@, k),
                    ),
            decreases page_count - index,
        {
            let start = index * LEDS_PER_PAGE;
            let end = if n - start >= LEDS_PER_PAGE {
                start + LEDS_PER_PAGE
            } else {
                n
            };
            let chunk = &pixels[start..end];
            assert(chunk@ == page_pixels(pixels@, index as int));
            match Self::make_report(index as u8, chunk) {
                Ok(report) => packets.push(report),
                Err(e) => return Err(e),
            }
            index = index + 1;
        }
        let no_pixels: &[Rgb] = &[];
        assert(no_pixels@ =~= Seq::<Rgb>::empty());
        match Self::make_report(COMMIT_PAGE, no_pixels) {
            Ok(report) => packets.push(report),
            Err(e) => return Err(e),
        }
        proof {
            let ghost expected = spec_encode_frame(frame@)->Ok_0;
            assert(expected.len() == packets@.len());
            assert forall|k: int| 0 <= k < packets@.len() implies #[trigger] packets@[k]@ == expected[k] by {
                if k < page_count {
                } else {
                    assert(k == page_count);
                }
            }
            assert(packets@.map_values(|r: Vec<u8>| r@) =~= expected);
        }
        Ok(packets)
    }
}

/// The reports that carry `frame` to a device of this topology: the frame must
/// hold exactly one color per LED of the topology.
pub fn encode_submission(topology: &Topology, frame: &Frame) -> (reports: Result<Vec<Vec<u8>>, DriverError>)
    ensures
        match reports {
            Ok(reports) => frame@.len() == topology@.0.len() && spec_encode_frame(frame@)
                == Ok::<Seq<Seq<u8>>, CodecError>(reports@.map_values(|r: Vec<u8>| r@)),
            Err(DriverError::FrameLength { expected, got }) => frame@.len() != topology@.0.len()
                && expected == topology@.0.len() && got == frame@.len(),
            Err(DriverError::Codec(e)) => frame@.len() == topology@.0.len() && spec_encode_frame(
                frame@,
            ) == Err::<Seq<Seq<u8>>, CodecError>(e),
            Err(_) => false,
        },
{
    let expected = topology.led_count();
    let got = frame.len();
    if got != expected {
        return Err(DriverError::FrameLength { expected, got });
    }
    match Colorful088Codec.encode_frame(frame) {
        Ok(reports) => Ok(reports),
        Err(e) => Err(DriverError::Codec(e)),
    }
}

/// The driver of Colorful boards that speak the 0x88 protocol, for one profile.
pub struct ColorfulFamilyDriver {
    profile: BoardProfile,
}

impl View for ColorfulFamilyDriver {
    type V = BoardProfile;

    closed spec fn view(&self) -> BoardProfile {
        self.profile
    }
}

impl ColorfulFamilyDriver {
    #[verifier::type_invariant]
    spec fn well_formed(self) -> bool {
        profile_is_sound(self.profile)
    }

    /// The driver for the catalog's Colorful profile of this board: the one
    /// named `requested` if given, else the only one matching `identity`.
    pub fn load_for_identity(catalog: &ProfileCatalog, identity: &BoardIdentity, requested: Option<&str>) -> (driver: Result<ColorfulFamilyDriver, DriverError>)
        ensures
            match driver {
                Ok(d) => select_outcome(
                    catalog@,
                    match requested {
                        Some(r) => Some(r@),
                        None => None,
                    },
                    BrandId::Colorful,
                    Some(*identity),
                    Ok::<BoardProfile, ConfigError>(d@),
                ),
                Err(DriverError::Config(e)) => select_outcome(
                    catalog@,
                    match requested {
                        Some(r) => Some(r@),
                        None => None,
                    },
                    BrandId::Colorful,
                    Some(*identity),
                    Err::<BoardProfile, ConfigError>(e),
                ),
                Err(_) => false,
            },
    {
        Self::load_matching_profile(catalog, requested, Some(identity))
    }

    /// The driver for the catalog's Colorful profile named `requested`.
    pub fn load_profile(catalog: &ProfileCatalog, requested: &str) -> (driver: Result<ColorfulFamilyDriver, DriverError>)
        ensures
            match driver {
                Ok(d) => select_outcome(
                    catalog@,
                    Some(requested@),
                    BrandId::Colorful,
                    None,
                    Ok::<BoardProfile, ConfigError>(d@),
                ),
                Err(DriverError::Config(e)) => select_outcome(
                    catalog@,
                    Some(requested@),
                    BrandId::Colorful,
                    None,
                    Err::<BoardProfile, ConfigError>(e),
                ),
                Err(_) => false,
            },
    {
        Self::load_matching_profile(catalog, Some(requested), None)
    }

    fn load_matching_profile(catalog: &ProfileCatalog, requested: Option<&str>, identity: Option<&BoardIdentity>) -> (driver: Result<ColorfulFamilyDriver, DriverError>)
        ensures
            match driver {
                Ok(d) => select_outcome(
                    catalog@,
                    match requested {
                        Some(r) => Some(r@),
                        None => None,
                    },
                    BrandId::Colorful,
                    match identity {
                        Some(id) => Some(*id),
                        None => None,
                    },
                    Ok::<BoardProfile, ConfigError>(d@),
                ),
                Err(DriverError::Config(e)) => select_outcome(
                    catalog@,
                    match requested {
                        Some(r) => Some(r@),
                        None => None,
                    },
                    BrandId::Colorful,
                    match identity {
                        Some(id) => Some(*id),
                        None => None,
                    },
                    Err::<BoardProfile, ConfigError>(e),
                ),
                Err(_) => false,
            },
    {
        let profile = match catalog.select(requested, BrandId::Colorful, identity) {
            Ok(profile) => profile,
            Err(e) => return Err(DriverError::Config(e)),
        };
        Ok(ColorfulFamilyDriver { profile })
    }

    /// The profile the driver was set up for; it is sound.
    pub fn profile(&self) -> (profile: &BoardProfile)
        ensures
            *profile == self@,
            profile_is_sound(*profile),
    {
        proof {
            use_type_invariant(self);
        }
        &self.profile
    }

    /// The topology of the driver's profile.
    pub fn topology(&self) -> (topology: Result<Topology, TopologyError>)
        ensures
            spec_from_profiles(self@.zones@, topology),
    {
        proof {
            use_type_invariant(self);
        }
        self.profile.topology()
    }
}

} // verus!
