//! What a benchmark is asked to do, and the runs that it makes of it.

use crate::decimal::{self, parse_number, show_three};
use crate::text::{from_chars, joined, same_text, to_chars};
use crate::video::{
    VideoChromaSampling, VideoDynamicRange, VideoFormat, VideoStreamConfig, VideoStreamContext,
};
use vstd::prelude::*;

verus! {

/// Why a benchmark fails.
#[derive(Debug)]
pub struct BenchError {
    message: String,
}

impl View for BenchError {
    type V = Seq<char>;

    closed spec fn view(&self) -> Seq<char> {
        self.message@
    }
}

impl BenchError {
    pub fn message(&self) -> (r: &str)
        ensures
            r@ == self@,
    {
        self.message.as_str()
    }
}

/// A failure with a message.
pub fn error(message: &str) -> (r: BenchError)
    ensures
        r@ == message@,
{
    BenchError { message: message.to_owned() }
}

/// The lowest and the highest frame rate.
pub const MIN_FPS: u32 = 1;

pub const MAX_FPS: u32 = 1000;

/// The shortest measurement, in seconds.
pub const MIN_DURATION: u64 = 1;

/// The fewest repetitions.
pub const MIN_REPEAT: u32 = 1;

/// The largest share of parity packets, in percent.
pub const MAX_FEC: u8 = 100;

/// The lowest port.
pub const MIN_PORT: u16 = 1;

/// The longest that warmup and measurement may take together, in seconds.
pub const MAX_SECONDS: u64 = 86_400;

/// Where a character first stands in a text; the text's length where it does not.
pub open spec fn find(text: Seq<char>, c: char) -> int
    decreases text.len(),
{
    if text.len() == 0 || text[0] == c {
        0
    } else {
        1 + find(text.drop_first(), c)
    }
}

/// What a resolution's text stands for: width and height in pixels, or what is wrong with it.
pub open spec fn resolution(text: Seq<char>) -> Result<(nat, nat), Seq<char>> {
    let x = find(text, 'x');
    if x == text.len() {
        Err("resolution must be WxH"@)
    } else {
        match decimal::number(text.take(x), u32::MAX as u64) {
            Err(error) => Err(error.text()),
            Ok(width) => match decimal::number(text.skip(x + 1), u32::MAX as u64) {
                Err(error) => Err(error.text()),
                Ok(height) => if width == 0 || height == 0 {
                    Err("resolution must be positive"@)
                } else {
                    Ok((width, height))
                },
            },
        }
    }
}

/// Reads a resolution: two positive numbers with an `x` between them.
pub fn parse_resolution(text: &str) -> (r: Result<(u32, u32), BenchError>)
    ensures
        match resolution(text@) {
            Ok((width, height)) => r is Ok && r->Ok_0.0 == width && r->Ok_0.1 == height,
            Err(message) => r is Err && r->Err_0@ == message,
        },
{
    let chars: Vec<char> = to_chars(text);
    let mut x: usize = 0;
    let mut width: Vec<char> = Vec::new();
    proof {
        assert(text@.skip(0) =~= text@);
        assert(text@.take(0) =~= Seq::<char>::empty());
    }
    while x < chars.len() && chars[x] != 'x'
        invariant
            x <= chars@.len(),
            chars@ == text@,
            width@ == text@.take(x as int),
            find(text@, 'x') == x + find(text@.skip(x as int), 'x'),
        decreases chars@.len() - x,
    {
        proof {
            assert(text@.skip(x as int).drop_first() =~= text@.skip(x + 1));
        }
        width.push(chars[x]);
        proof {
            assert(width@ =~= text@.take(x + 1));
        }
        x = x + 1;
    }
    if x == chars.len() {
        return Err(error("resolution must be WxH"));
    }
    let mut height: Vec<char> = Vec::new();
    let mut i: usize = x + 1;
    while i < chars.len()
        invariant
            x + 1 <= i <= chars@.len(),
            height@ == chars@.subrange(x + 1, i as int),
        decreases chars@.len() - i,
    {
        height.push(chars[i]);
        proof {
            assert(height@ =~= chars@.subrange(x + 1, i + 1));
        }
        i = i + 1;
    }
    proof {
        assert(height@ =~= text@.skip(x + 1));
        assert(find(text@, 'x') == x);
    }
    let w: u64 = match parse_number(from_chars(width.as_slice()).as_str(), u32::MAX as u64) {
        Ok(n) => n,
        Err(e) => {
            return Err(error(e.message()));
        },
    };
    let h: u64 = match parse_number(from_chars(height.as_slice()).as_str(), u32::MAX as u64) {
        Ok(n) => n,
        Err(e) => {
            return Err(error(e.message()));
        },
    };
    proof {
        decimal::lemma_number_is_within_limit(text@.take(x as int), u32::MAX as u64);
        decimal::lemma_number_is_within_limit(text@.skip(x + 1), u32::MAX as u64);
    }
    if w == 0 || h == 0 {
        return Err(error("resolution must be positive"));
    }
    Ok((w as u32, h as u32))
}

/// The format that a codec's name stands for.
pub open spec fn codec_format(codec: Seq<char>) -> Option<VideoFormat> {
    if codec == "h264"@ {
        Some(VideoFormat::H264)
    } else if codec == "hevc"@ {
        Some(VideoFormat::Hevc)
    } else if codec == "av1"@ {
        Some(VideoFormat::Av1)
    } else {
        None
    }
}

/// Whether a codec is known.
pub fn is_codec(codec: &str) -> (r: bool)
    ensures
        r == (codec_format(codec@) is Some),
{
    same_text(codec, "h264") || same_text(codec, "hevc") || same_text(codec, "av1")
}

/// The format that a known codec stands for.
pub fn parse_codec(codec: &str) -> (r: VideoFormat)
    requires
        codec_format(codec@) is Some,
    ensures
        r == codec_format(codec@)->0,
{
    if same_text(codec, "h264") {
        VideoFormat::H264
    } else if same_text(codec, "hevc") {
        VideoFormat::Hevc
    } else {
        VideoFormat::Av1
    }
}

/// What a benchmark is asked to do.
pub struct Arguments {
    /// Run the built-in matrix rather than one setting.
    pub matrix: bool,
    pub resolution: String,
    pub fps: u32,
    pub bitrate: usize,
    pub codec: String,
    /// Measurement seconds after warmup; finite runs make comparisons repeatable.
    pub duration: u64,
    pub warmup: u64,
    pub repeat: u32,
    pub hdr: bool,
    /// Force the composited path for a controlled comparison.
    pub composited: bool,
    pub fec: u8,
    pub port: u16,
}

impl Arguments {
    /// What is wrong with the arguments, if anything.
    pub open spec fn complaint(&self) -> Option<Seq<char>> {
        if resolution(self.resolution@) is Err {
            Some(resolution(self.resolution@)->Err_0)
        } else if self.bitrate == 0 || self.bitrate > u32::MAX {
            Some("bitrate must fit a positive u32"@)
        } else if self.duration + self.warmup > MAX_SECONDS {
            Some("duration plus warmup must be at most 86400 seconds"@)
        } else {
            None
        }
    }

    /// Makes sure that a benchmark can be run.
    pub fn check(&self) -> (r: Result<(), BenchError>)
        ensures
            match self.complaint() {
                Some(message) => r is Err && r->Err_0@ == message,
                None => r is Ok,
            },
    {
        match parse_resolution(self.resolution.as_str()) {
            Ok(_) => {},
            Err(e) => {
                return Err(e);
            },
        }
        if self.bitrate == 0 || self.bitrate as u64 > u32::MAX as u64 {
            return Err(error("bitrate must fit a positive u32"));
        }
        let too_long: bool = match self.duration.checked_add(self.warmup) {
            Some(seconds) => seconds > MAX_SECONDS,
            None => true,
        };
        if too_long {
            return Err(error("duration plus warmup must be at most 86400 seconds"));
        }
        Ok(())
    }

    /// The settings that are measured one after another.
    pub open spec fn wanted(&self) -> Seq<(Seq<char>, u32, Seq<char>)> {
        if self.matrix {
            Seq::new(27, |i: int| matrix_setting(i))
        } else {
            seq![(self.resolution@, self.fps, self.codec@)]
        }
    }

    /// The settings to measure: the one that was asked for, or the whole matrix.
    pub fn settings(&self) -> (r: Vec<Setting>)
        ensures
            setting_views(r@) == self.wanted(),
    {
        let mut r: Vec<Setting> = Vec::new();
        if self.matrix {
            let mut i: usize = 0;
            while i < 27
                invariant
                    i <= 27,
                    setting_views(r@) == Seq::new(i as nat, |k: int| matrix_setting(k)),
                decreases 27 - i,
            {
                let setting: Setting = Setting::nth(i);
                let ghost before = r@;
                let ghost added = setting@;
                r.push(setting);
                proof {
                    assert(setting_views(r@) =~= setting_views(before).push(added));
                    assert(setting_views(r@) =~= Seq::new((i + 1) as nat, |k: int| matrix_setting(k)));
                }
                i = i + 1;
            }
        } else {
            r.push(
                Setting {
                    resolution: self.resolution.clone(),
                    fps: self.fps,
                    codec: self.codec.clone(),
                },
            );
            proof {
                assert(setting_views(r@) =~= self.wanted());
            }
        }
        r
    }
}

/// What one run measures.
pub struct Setting {
    pub resolution: String,
    pub fps: u32,
    pub codec: String,
}

impl View for Setting {
    type V = (Seq<char>, u32, Seq<char>);

    open spec fn view(&self) -> (Seq<char>, u32, Seq<char>) {
        (self.resolution@, self.fps, self.codec@)
    }
}

pub open spec fn setting_views(settings: Seq<Setting>) -> Seq<(Seq<char>, u32, Seq<char>)> {
    settings.map_values(|setting: Setting| setting@)
}

/// The built-in matrix: three resolutions, each with three frame rates, each with three
/// codecs.
pub open spec fn matrix_setting(i: int) -> (Seq<char>, u32, Seq<char>) {
    let resolution = i / 9;
    let fps = (i / 3) % 3;
    let codec = i % 3;
    (
        if resolution == 0 {
            "3840x2160"@
        } else if resolution == 1 {
            "2560x1440"@
        } else {
            "1920x1080"@
        },
        if fps == 0 {
            60
        } else if fps == 1 {
            120
        } else {
            360
        },
        if codec == 0 {
            "hevc"@
        } else if codec == 1 {
            "h264"@
        } else {
            "av1"@
        },
    )
}

impl Setting {
    /// A setting of the matrix.
    fn nth(i: usize) -> (r: Setting)
        requires
            i < 27,
        ensures
            r@ == matrix_setting(i as int),
    {
        let resolution: usize = i / 9;
        let fps: usize = (i / 3) % 3;
        let codec: usize = i % 3;
        Setting {
            resolution: if resolution == 0 {
                "3840x2160".to_owned()
            } else if resolution == 1 {
                "2560x1440".to_owned()
            } else {
                "1920x1080".to_owned()
            },
            fps: if fps == 0 {
                60
            } else if fps == 1 {
                120
            } else {
                360
            },
            codec: if codec == 0 {
                "hevc".to_owned()
            } else if codec == 1 {
                "h264".to_owned()
            } else {
                "av1".to_owned()
            },
        }
    }
}

/// Every setting of the matrix has a codec that is known.
pub proof fn lemma_matrix_codecs_are_known(i: int)
    requires
        0 <= i < 27,
    ensures
        codec_format(matrix_setting(i).2) is Some,
{
}

/// No two places of the matrix hold the same setting.
pub proof fn lemma_matrix_settings_differ(i: int, j: int)
    requires
        0 <= i < 27,
        0 <= j < 27,
        matrix_setting(i) == matrix_setting(j),
    ensures
        i == j,
{
    reveal_strlit("3840x2160");
    reveal_strlit("2560x1440");
    reveal_strlit("1920x1080");
    reveal_strlit("hevc");
    reveal_strlit("h264");
    reveal_strlit("av1");
    assert("3840x2160"@[0] == '3');
    assert("2560x1440"@[0] == '2');
    assert("1920x1080"@[0] == '1');
    assert("hevc"@[1] == 'e');
    assert("h264"@[1] == '2');
    assert("av1"@[1] == 'v');
}

/// How the session of a run is set up.
#[derive(Clone, Copy, Debug, PartialEq, Eq, Structural)]
pub struct SessionPlan {
    pub direct_scanout: bool,
    pub video: VideoStreamConfig,
    /// After so many seconds an idle session ends on its own.
    pub timeout: u64,
    pub context: VideoStreamContext,
}

/// The size of each packet in bytes.
pub const PACKET_SIZE: usize = 1400;

/// The fewest parity packets for each frame.
pub const MINIMUM_FEC_PACKETS: u32 = 2;

/// The session outlives the measurement by so many seconds.
pub const TIMEOUT_MARGIN: u64 = 120;

/// A sum that stops at the largest number.
pub open spec fn capped(n: int) -> u64 {
    if n <= u64::MAX {
        n as u64
    } else {
        u64::MAX
    }
}

/// The plan for a run.
pub open spec fn planned(
    arguments: &Arguments,
    width: nat,
    height: nat,
    fps: u32,
    format: VideoFormat,
) -> SessionPlan {
    SessionPlan {
        direct_scanout: !arguments.composited,
        video: VideoStreamConfig {
            port: arguments.port,
            fec_percentage: arguments.fec,
            encrypt: false,
            log_frame_spikes: false,
        },
        timeout: capped(arguments.duration + arguments.warmup + TIMEOUT_MARGIN),
        context: VideoStreamContext {
            width: width as u32,
            height: height as u32,
            fps,
            packet_size: PACKET_SIZE,
            bitrate: arguments.bitrate,
            minimum_fec_packets: MINIMUM_FEC_PACKETS,
            qos: false,
            video_format: format,
            dynamic_range: if arguments.hdr {
                VideoDynamicRange::Hdr
            } else {
                VideoDynamicRange::Sdr
            },
            chroma_sampling_type: VideoChromaSampling::Yuv420,
            max_reference_frames: 1,
            full_range: false,
            encrypt_video: false,
        },
    }
}

impl Arguments {
    /// Plans the session of a run.
    pub fn plan(&self, setting: &Setting) -> (r: Result<SessionPlan, BenchError>)
        requires
            codec_format(setting.codec@) is Some,
        ensures
            match resolution(setting.resolution@) {
                Ok((width, height)) => r is Ok && r->Ok_0 == planned(
                    self,
                    width,
                    height,
                    setting.fps,
                    codec_format(setting.codec@)->0,
                ),
                Err(message) => r is Err && r->Err_0@ == message,
            },
    {
        let (width, height): (u32, u32) = match parse_resolution(setting.resolution.as_str()) {
            Ok(size) => size,
            Err(e) => {
                return Err(e);
            },
        };
        let video_format: VideoFormat = parse_codec(setting.codec.as_str());
        Ok(
            SessionPlan {
                direct_scanout: !self.composited,
                video: VideoStreamConfig {
                    port: self.port,
                    fec_percentage: self.fec,
                    encrypt: false,
                    log_frame_spikes: false,
                },
                timeout: self.duration.saturating_add(self.warmup).saturating_add(TIMEOUT_MARGIN),
                context: VideoStreamContext {
                    width,
                    height,
                    fps: setting.fps,
                    packet_size: PACKET_SIZE,
                    bitrate: self.bitrate,
                    minimum_fec_packets: MINIMUM_FEC_PACKETS,
                    qos: false,
                    video_format,
                    dynamic_range: if self.hdr {
                        VideoDynamicRange::Hdr
                    } else {
                        VideoDynamicRange::Sdr
                    },
                    chroma_sampling_type: VideoChromaSampling::Yuv420,
                    max_reference_frames: 1,
                    full_range: false,
                    encrypt_video: false,
                },
            },
        )
    }
}

/// The beginning of the names of a run's files.
pub open spec fn run_stem(run: nat) -> Seq<char> {
    "run-"@ + decimal::shown_wide(run, 3)
}

/// The file that the report of a run goes to.
pub fn report_file(run: u64) -> (r: String)
    ensures
        r@ == run_stem(run as nat) + ".json"@,
{
    joined(joined("run-", show_three(run).as_str()).as_str(), ".json")
}

/// The file that says why a run failed.
pub fn error_file(run: u64) -> (r: String)
    ensures
        r@ == run_stem(run as nat) + "-error.json"@,
{
    joined(joined("run-", show_three(run).as_str()).as_str(), "-error.json")
}

/// The file that the frames of a run go to.
pub fn frames_file(run: u64) -> (r: String)
    ensures
        r@ == run_stem(run as nat) + "-frames.jsonl"@,
{
    joined(joined("run-", show_three(run).as_str()).as_str(), "-frames.jsonl")
}

proof fn lemma_find_passes_over(start: Seq<char>, rest: Seq<char>, c: char)
    requires
        !start.contains(c),
    ensures
        find(start + rest, c) == start.len() + find(rest, c),
    decreases start.len(),
{
    if start.len() == 0 {
        assert(start + rest =~= rest);
    } else {
        let less = start.drop_first();
        assert(start.contains(start[0]));
        assert forall|i: int| 0 <= i < less.len() implies less[i] != c by {
            assert(less[i] == start[i + 1]);
            assert(start.contains(start[i + 1]));
        }
        assert(!less.contains(c));
        lemma_find_passes_over(less, rest, c);
        assert((start + rest)[0] == start[0]);
        assert((start + rest).drop_first() =~= less + rest);
    }
}

/// A resolution is read as it is written: two numbers with an `x` between them, the width
/// first. Neither may be zero.
pub proof fn lemma_resolutions_are_read_back(width: nat, height: nat)
    requires
        width <= u32::MAX,
        height <= u32::MAX,
    ensures
        width > 0 && height > 0 ==> resolution(
            decimal::shown(width) + seq!['x'] + decimal::shown(height),
        ) == Ok::<(nat, nat), Seq<char>>((width, height)),
        width == 0 || height == 0 ==> resolution(
            decimal::shown(width) + seq!['x'] + decimal::shown(height),
        ) == Err::<(nat, nat), Seq<char>>("resolution must be positive"@),
{
    let w = decimal::shown(width);
    let h = decimal::shown(height);
    let whole = w + seq!['x'] + h;
    let rest = seq!['x'] + h;
    decimal::lemma_shown_is_read_back(width, u32::MAX as u64);
    decimal::lemma_shown_is_read_back(height, u32::MAX as u64);
    decimal::lemma_shown_is_digits(width);
    assert forall|i: int| 0 <= i < w.len() implies w[i] != 'x' by {
        assert(decimal::is_digit(w[i]));
    }
    assert(!w.contains('x'));
    lemma_find_passes_over(w, rest, 'x');
    assert(rest[0] == 'x');
    assert(whole =~= w + rest);
    assert(whole.take(w.len() as int) =~= w);
    assert(whole.skip(w.len() as int + 1) =~= h);
}

/// A text without an `x` is no resolution, and neither is one whose width or height is no
/// number.
pub proof fn lemma_what_is_no_resolution(width: Seq<char>, height: Seq<char>)
    requires
        !width.contains('x'),
    ensures
        resolution(width) == Err::<(nat, nat), Seq<char>>("resolution must be WxH"@),
        decimal::number(width, u32::MAX as u64) matches Err(error) ==> resolution(
            width + seq!['x'] + height,
        ) == Err::<(nat, nat), Seq<char>>(error.text()),
        decimal::number(height, u32::MAX as u64) matches Err(error) ==> decimal::number(
            width,
            u32::MAX as u64,
        ) is Ok ==> resolution(width + seq!['x'] + height) == Err::<(nat, nat), Seq<char>>(
            error.text(),
        ),
{
    let whole = width + seq!['x'] + height;
    let rest = seq!['x'] + height;
    lemma_find_passes_over(width, Seq::empty(), 'x');
    assert(width + Seq::<char>::empty() =~= width);
    lemma_find_passes_over(width, rest, 'x');
    assert(rest[0] == 'x');
    assert(whole =~= width + rest);
    assert(whole.take(width.len() as int) =~= width);
    assert(whole.skip(width.len() as int + 1) =~= height);
}

/// The three codecs by name, and no other.
pub proof fn lemma_codecs_are_named(codec: Seq<char>)
    ensures
        codec == "h264"@ ==> codec_format(codec) == Some(VideoFormat::H264),
        codec == "hevc"@ ==> codec_format(codec) == Some(VideoFormat::Hevc),
        codec == "av1"@ ==> codec_format(codec) == Some(VideoFormat::Av1),
        codec_format(codec) is Some ==> codec == "h264"@ || codec == "hevc"@ || codec == "av1"@,
{
    reveal_strlit("hevc");
    reveal_strlit("h264");
    reveal_strlit("av1");
    assert("hevc"@[1] == 'e');
    assert("h264"@[1] == '2');
    assert("av1"@[1] == 'v');
}

/// A benchmark can be run exactly if its resolution can be read, its bitrate is positive and
/// fits 32 bits, and warmup and measurement together take a day at most.
pub proof fn lemma_what_can_be_run(arguments: &Arguments)
    ensures
        arguments.complaint() is None <==> resolution(arguments.resolution@) is Ok && 0
            < arguments.bitrate <= 4_294_967_295 && arguments.duration + arguments.warmup <= 24
            * 3_600,
        resolution(arguments.resolution@) matches Err(message) ==> arguments.complaint() == Some(
            message,
        ),
        resolution(arguments.resolution@) is Ok && (arguments.bitrate == 0 || arguments.bitrate
            >= 4_294_967_296) ==> arguments.complaint() == Some("bitrate must fit a positive u32"@),
        resolution(arguments.resolution@) is Ok && 0 < arguments.bitrate <= 4_294_967_295
            && arguments.duration + arguments.warmup > 86_400 ==> arguments.complaint() == Some(
            "duration plus warmup must be at most 86400 seconds"@,
        ),
{
}

/// The matrix holds every resolution with every frame rate and every codec.
pub proof fn lemma_the_matrix_is_complete(arguments: &Arguments)
    requires
        arguments.matrix,
    ensures
        arguments.wanted().len() == 27,
        forall|resolution: Seq<char>, fps: u32, codec: Seq<char>|
            (resolution == "3840x2160"@ || resolution == "2560x1440"@ || resolution == "1920x1080"@)
                && (fps == 60 || fps == 120 || fps == 360) && (codec == "h264"@ || codec == "hevc"@
                || codec == "av1"@) ==> #[trigger] arguments.wanted().contains(
                (resolution, fps, codec),
            ),
{
    assert forall|resolution: Seq<char>, fps: u32, codec: Seq<char>|
        (resolution == "3840x2160"@ || resolution == "2560x1440"@ || resolution == "1920x1080"@) && (
        fps == 60 || fps == 120 || fps == 360) && (codec == "h264"@ || codec == "hevc"@ || codec
            == "av1"@) implies #[trigger] arguments.wanted().contains((resolution, fps, codec)) by {
        let r: int = if resolution == "3840x2160"@ {
            0
        } else if resolution == "2560x1440"@ {
            1
        } else {
            2
        };
        let f: int = if fps == 60 {
            0
        } else if fps == 120 {
            1
        } else {
            2
        };
        let c: int = if codec == "hevc"@ {
            0
        } else if codec == "h264"@ {
            1
        } else {
            2
        };
        let i = 9 * r + 3 * f + c;
        assert(i / 9 == r && (i / 3) % 3 == f && i % 3 == c);
        assert(arguments.wanted()[i] == (resolution, fps, codec));
    }
}

/// Without the matrix just what was asked for is measured.
pub proof fn lemma_one_setting_is_measured(arguments: &Arguments)
    requires
        !arguments.matrix,
    ensures
        arguments.wanted().len() == 1,
        arguments.wanted()[0] == (arguments.resolution@, arguments.fps, arguments.codec@),
{
}

/// What was asked for is what is planned. The session outlives warmup and measurement by two
/// minutes, and its stream is as plain as every benchmark's.
pub proof fn lemma_plans_follow_the_arguments(
    arguments: &Arguments,
    width: nat,
    height: nat,
    fps: u32,
    format: VideoFormat,
)
    requires
        width <= u32::MAX,
        height <= u32::MAX,
    ensures
        ({
            let plan = planned(arguments, width, height, fps, format);
            &&& plan.direct_scanout != arguments.composited
            &&& plan.video.port == arguments.port
            &&& plan.video.fec_percentage == arguments.fec
            &&& !plan.video.encrypt
            &&& !plan.video.log_frame_spikes
            &&& arguments.duration + arguments.warmup + 120 <= u64::MAX ==> plan.timeout
                == arguments.duration + arguments.warmup + 120
            &&& arguments.duration + arguments.warmup + 120 > u64::MAX ==> plan.timeout == u64::MAX
        }),
        ({
            let context = planned(arguments, width, height, fps, format).context;
            &&& context.width == width
            &&& context.height == height
            &&& context.fps == fps
            &&& context.bitrate == arguments.bitrate
            &&& context.video_format == format
            &&& context.dynamic_range == VideoDynamicRange::Hdr <==> arguments.hdr
            &&& context.packet_size == 1_400
            &&& context.minimum_fec_packets == 2
            &&& context.max_reference_frames == 1
            &&& context.chroma_sampling_type == VideoChromaSampling::Yuv420
            &&& !context.qos
            &&& !context.full_range
            &&& !context.encrypt_video
        }),
{
}

/// The files of a run begin with its number, in three digits at least, and no two runs share
/// them.
pub proof fn lemma_files_carry_the_number(run: nat, other: nat)
    requires
        run <= u64::MAX,
        other <= u64::MAX,
    ensures
        crate::text::begins_with(run_stem(run), "run-"@),
        decimal::number(run_stem(run).skip(4), u64::MAX) == Ok::<nat, decimal::NumberError>(run),
        run_stem(run).len() >= 7,
        run_stem(run) == run_stem(other) ==> run == other,
{
    reveal_strlit("run-");
    decimal::lemma_filled_up_numbers_keep_their_value(run, 3, u64::MAX);
    decimal::lemma_filled_up_numbers_keep_their_value(other, 3, u64::MAX);
    assert(run_stem(run).skip(4) =~= decimal::shown_wide(run, 3));
    assert(run_stem(other).skip(4) =~= decimal::shown_wide(other, 3));
    assert(run_stem(run).take(4) =~= "run-"@);
}

/// The limits of what can be asked for.
pub proof fn lemma_limits_leave_a_choice()
    ensures
        0 < MIN_FPS < MAX_FPS == 1_000,
        MIN_FPS == 1 && MIN_DURATION == 1 && MIN_REPEAT == 1 && MIN_PORT == 1,
        MAX_FEC == 100,
        MAX_SECONDS == 24 * 3_600,
{
}

} // verus!
