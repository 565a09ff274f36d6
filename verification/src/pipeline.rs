//! The capture pipeline of the whole display: its sizes, its description, and how it is
//! restarted when the display changes.

use crate::config::{Config, EncoderType};
use crate::decimal::{decimal, lemma_decimal_round_trip, push_decimal};
use crate::display::{lemma_resolution_splits, resolution_text, write_resolution, DisplayError};
use crate::text::{contains_text, stands_at, starts_with};
use vstd::prelude::*;
use vstd::string::*;

verus! {

// ---------------------------------------------------------------------------
// Sizes
// ---------------------------------------------------------------------------

/// The even number that a dimension is rounded to: the next one up, but at least 2 and at most
/// 65534.
pub open spec fn even_size(dim: u16) -> u16 {
    if dim < 2 {
        2
    } else if dim == u16::MAX {
        65534
    } else {
        (dim + dim % 2) as u16
    }
}

/// Two dimensions in one number, the width in the upper half.
pub open spec fn packed_size(width: u16, height: u16) -> u32 {
    (width * 0x1_0000 + height) as u32
}

/// A window size cut to the display, where the size of the display is known.
pub open spec fn clamped_size(
    width: u16,
    height: u16,
    display_w: u16,
    display_h: u16,
) -> (u16, u16) {
    if display_w > 0 && display_h > 0 {
        (
            if width > display_w {
                display_w
            } else {
                width
            },
            if height > display_h {
                display_h
            } else {
                height
            },
        )
    } else {
        (width, height)
    }
}

/// Round a dimension to even (required by x264enc/I420 for 4:2:0 chroma subsampling).
/// Does not overflow, and enforces a minimum of 2.
pub fn round_to_even(dim: u16) -> (even: u16)
    ensures
        even == even_size(dim),
{
    let up: u16 = if dim == u16::MAX {
        dim
    } else {
        dim + 1
    };
    let even = up - up % 2;
    if even < 2 {
        2
    } else {
        even
    }
}

/// Pack display dimensions into a single u32 for atomic sharing.
pub fn pack_display_size(width: u16, height: u16) -> (packed: u32)
    ensures
        packed == packed_size(width, height),
{
    width as u32 * 0x1_0000 + height as u32
}

/// Unpack display dimensions from a packed u32.
pub fn unpack_display_size(packed: u32) -> (size: (u16, u16))
    ensures
        size.0 == packed / 0x1_0000,
        size.1 == packed % 0x1_0000,
{
    ((packed / 0x1_0000) as u16, (packed % 0x1_0000) as u16)
}

/// Clamp dimensions to display bounds. Returns the (possibly clamped) width and height.
/// If display dimensions are zero (uninitialized), returns the original values.
pub fn clamp_to_display(width: u16, height: u16, display_w: u16, display_h: u16) -> (size: (
    u16,
    u16,
))
    ensures
        size == clamped_size(width, height, display_w, display_h),
{
    if display_w > 0 && display_h > 0 && (width > display_w || height > display_h) {
        (
            if width < display_w {
                width
            } else {
                display_w
            },
            if height < display_h {
                height
            } else {
                display_h
            },
        )
    } else {
        (width, height)
    }
}

/// The lower half of a dimension.
fn low_half(dim: u32) -> (low: u16)
    ensures
        low == dim % 0x1_0000,
{
    (dim % 0x1_0000) as u16
}

// ---------------------------------------------------------------------------
// Frames
// ---------------------------------------------------------------------------

/// Encoded H.264 frame data
#[derive(Debug)]
pub struct EncodedFrame {
    pub data: Vec<u8>,
    pub pts: u64,
    pub is_keyframe: bool,
}

impl Clone for EncodedFrame {
    fn clone(&self) -> (copy: Self)
        ensures
            copy.data@ == self.data@,
            copy.pts == self.pts,
            copy.is_keyframe == self.is_keyframe,
    {
        let mut data: Vec<u8> = Vec::new();
        crate::wire::push_bytes(&mut data, self.data.as_slice());
        proof {
            assert(data@ =~= self.data@);
        }
        EncodedFrame { data, pts: self.pts, is_keyframe: self.is_keyframe }
    }
}

impl EncodedFrame {
    /// The frame in a sample of the encoder: without a time stamp it counts as the first, and
    /// what builds on no other frame is a keyframe.
    pub fn from_sample(data: Vec<u8>, pts: Option<u64>, is_delta: bool) -> (frame: Self)
        ensures
            frame.data == data,
            frame.pts == (match pts {
                Some(t) => t,
                None => 0,
            }),
            frame.is_keyframe == !is_delta,
    {
        let pts: u64 = match pts {
            Some(t) => t,
            None => 0,
        };
        EncodedFrame { data, pts, is_keyframe: !is_delta }
    }
}

// ---------------------------------------------------------------------------
// Pipeline descriptions
// ---------------------------------------------------------------------------

/// The encoder's part of a pipeline description.
pub open spec fn encoder_text(encoder: EncoderType, bitrate: nat, ki: nat) -> Seq<char> {
    match encoder {
        EncoderType::X264 => "videoconvert ! video/x-raw,format=I420 ! x264enc name=encoder tune=zerolatency speed-preset=ultrafast bitrate="@
            + decimal(bitrate) + " key-int-max="@ + decimal(ki) + " bframes=0"@,
        EncoderType::Nvenc => "nvh264enc name=encoder preset=low-latency-hq rc-mode=cbr bitrate="@
            + decimal(bitrate) + " gop-size="@ + decimal(ki) + " bframes=0 zerolatency=true"@,
        EncoderType::Vaapi => "vaapih264enc name=encoder rate-control=cbr bitrate="@ + decimal(
            bitrate,
        ) + " keyframe-period="@ + decimal(ki),
    }
}

/// The step that scales the video, if it is not to have the size of the display.
pub open spec fn scale_text(config: Config) -> Seq<char> {
    if config.stream_width() != config.width() || config.stream_height() != config.height() {
        "! videoscale ! video/x-raw,width="@ + decimal(config.stream_width()) + ",height="@
            + decimal(config.stream_height()) + " "@
    } else {
        seq![]
    }
}

/// What every pipeline ends with: a byte stream into the sink.
pub open spec fn sink_text() -> Seq<char> {
    " ! video/x-h264,stream-format=byte-stream,alignment=au ! appsink name=sink emit-signals=true sync=false"@
}

/// The description of the pipeline that captures the display.
pub open spec fn pipeline_text(config: Config, encoder: EncoderType) -> Seq<char> {
    "ximagesrc display-name="@ + config.display@
        + " use-damage=0 show-pointer=true ! video/x-raw,framerate="@ + decimal(config.fps as nat)
        + "/1 "@ + scale_text(config) + "! "@ + encoder_text(
        encoder,
        config.bitrate as nat,
        config.keyframe_interval as nat,
    ) + sink_text()
}

/// The description of the pipeline that captures one window.
pub open spec fn window_pipeline_text(
    display: Seq<char>,
    window_id: nat,
    fps: nat,
    bitrate: nat,
    ki: nat,
    encoder: EncoderType,
) -> Seq<char> {
    "ximagesrc display-name="@ + display + " xid="@ + decimal(window_id)
        + " use-damage=0 show-pointer=true ! video/x-raw,framerate="@ + decimal(fps) + "/1 ! "@
        + encoder_text(encoder, bitrate, ki) + sink_text()
}

/// Build the encoder portion of a GStreamer pipeline string.
/// Shared between full-desktop and per-window pipelines.
pub fn build_encoder_string(encoder_type: EncoderType, bitrate: u32, ki: u32) -> (text: String)
    ensures
        text@ == encoder_text(encoder_type, bitrate as nat, ki as nat),
{
    match encoder_type {
        EncoderType::X264 => {
            let mut text = "videoconvert ! video/x-raw,format=I420 ! x264enc name=encoder tune=zerolatency speed-preset=ultrafast bitrate=".to_owned();
            push_decimal(&mut text, bitrate);
            text.append(" key-int-max=");
            push_decimal(&mut text, ki);
            text.append(" bframes=0");
            text
        },
        EncoderType::Nvenc => {
            let mut text =
                "nvh264enc name=encoder preset=low-latency-hq rc-mode=cbr bitrate=".to_owned();
            push_decimal(&mut text, bitrate);
            text.append(" gop-size=");
            push_decimal(&mut text, ki);
            text.append(" bframes=0 zerolatency=true");
            text
        },
        EncoderType::Vaapi => {
            let mut text = "vaapih264enc name=encoder rate-control=cbr bitrate=".to_owned();
            push_decimal(&mut text, bitrate);
            text.append(" keyframe-period=");
            push_decimal(&mut text, ki);
            text
        },
    }
}

/// Insert a scale step if stream resolution differs from desktop resolution.
fn build_scale_string(config: &Config) -> (text: String)
    ensures
        text@ == scale_text(*config),
{
    let sw = config.stream_resolution_width();
    let sh = config.stream_resolution_height();
    let mut text = String::new();
    if sw != config.resolution_width() || sh != config.resolution_height() {
        text = "! videoscale ! video/x-raw,width=".to_owned();
        push_decimal(&mut text, sw);
        text.append(",height=");
        push_decimal(&mut text, sh);
        text.append(" ");
    }
    proof {
        assert(text@ =~= scale_text(*config));
    }
    text
}

/// Build the GStreamer pipeline string for capturing the display.
pub fn build_pipeline_string(config: &Config, encoder_type: EncoderType) -> (text: String)
    ensures
        text@ == pipeline_text(*config, encoder_type),
{
    let scale_part = build_scale_string(config);
    let encoder_part = build_encoder_string(encoder_type, config.bitrate, config.keyframe_interval);
    let mut text = "ximagesrc display-name=".to_owned();
    text.append(config.display.as_str());
    text.append(" use-damage=0 show-pointer=true ! video/x-raw,framerate=");
    push_decimal(&mut text, config.fps);
    text.append("/1 ");
    text.append(scale_part.as_str());
    text.append("! ");
    text.append(encoder_part.as_str());
    text.append(" ! video/x-h264,stream-format=byte-stream,alignment=au ! appsink name=sink emit-signals=true sync=false");
    text
}

/// Build a GStreamer pipeline string for capturing a specific X11 window by its xid.
pub fn build_window_pipeline_string(
    display: &str,
    window_id: u32,
    fps: u32,
    bitrate: u32,
    keyframe_interval: u32,
    encoder_type: EncoderType,
) -> (text: String)
    ensures
        text@ == window_pipeline_text(
            display@,
            window_id as nat,
            fps as nat,
            bitrate as nat,
            keyframe_interval as nat,
            encoder_type,
        ),
{
    let encoder_part = build_encoder_string(encoder_type, bitrate, keyframe_interval);
    let mut text = "ximagesrc display-name=".to_owned();
    text.append(display);
    text.append(" xid=");
    push_decimal(&mut text, window_id);
    text.append(" use-damage=0 show-pointer=true ! video/x-raw,framerate=");
    push_decimal(&mut text, fps);
    text.append("/1 ! ");
    text.append(encoder_part.as_str());
    text.append(" ! video/x-h264,stream-format=byte-stream,alignment=au ! appsink name=sink emit-signals=true sync=false");
    text
}

// ---------------------------------------------------------------------------
// The running pipeline
// ---------------------------------------------------------------------------

/// What is known of the running pipeline.
#[derive(Debug, Clone, Copy, PartialEq, Eq, Structural)]
pub struct PipelineController {
    bitrate: u32,
    running: bool,
}

impl PipelineController {
    /// The bitrate that the encoder was last told, in kbps.
    pub closed spec fn kbps(&self) -> u32 {
        self.bitrate
    }

    /// Whether the pipeline runs.
    pub closed spec fn runs(&self) -> bool {
        self.running
    }

    /// A pipeline that was just started.
    pub fn new(bitrate: u32) -> (controller: Self)
        ensures
            controller.runs(),
            controller.kbps() == bitrate,
    {
        PipelineController { bitrate, running: true }
    }

    /// A controller that runs or not, for trying out what depends on it.
    pub fn new_for_test(running: bool) -> (controller: Self)
        ensures
            controller.runs() == running,
            controller.kbps() == 6000,
    {
        PipelineController { bitrate: 6000, running }
    }

    /// Update encoder bitrate (in kbps)
    pub fn set_bitrate(&mut self, kbps: u32)
        ensures
            final(self).kbps() == kbps,
            final(self).runs() == old(self).runs(),
    {
        self.bitrate = kbps;
    }

    /// The bitrate that the encoder was last told, in kbps.
    pub fn bitrate(&self) -> (kbps: u32)
        ensures
            kbps == self.kbps(),
    {
        self.bitrate
    }

    pub fn is_running(&self) -> (running: bool)
        ensures
            running == self.runs(),
    {
        self.running
    }

    /// The pipeline was stopped.
    pub fn stop(&mut self)
        ensures
            !final(self).runs(),
            final(self).kbps() == old(self).kbps(),
    {
        self.running = false;
    }
}

/// One step in restarting the pipeline.
#[derive(Debug)]
pub enum PipelineStep {
    /// Stop the pipeline and wait until it has let go of the display.
    StopPipeline,
    /// Run the hooks that shut down other users of the display.
    RunPreResizeHooks,
    /// Wait.
    Pause { millis: u64 },
    /// Restart the display. If that fails, the restart fails.
    RestartDisplay { display: String, width: u16, height: u16 },
    /// Connect the input handler to the display again.
    ReconnectInput,
    /// Start the configured command on the display again.
    RunPostStartCommand { display: String, command: String },
    /// Start a pipeline with this description. If that fails, the restart fails.
    StartPipeline { description: String },
    /// Give the new pipeline's frames to the sessions.
    PublishFrames,
    /// Run the hooks that connect other users to the display again.
    RunPostResizeHooks,
}

/// What a [`PipelineStep`] says.
pub ghost enum StepView {
    StopPipeline,
    RunPreResizeHooks,
    Pause { millis: u64 },
    RestartDisplay { display: Seq<char>, width: u16, height: u16 },
    ReconnectInput,
    RunPostStartCommand { display: Seq<char>, command: Seq<char> },
    StartPipeline { description: Seq<char> },
    PublishFrames,
    RunPostResizeHooks,
}

impl View for PipelineStep {
    type V = StepView;

    open spec fn view(&self) -> StepView {
        match *self {
            PipelineStep::StopPipeline => StepView::StopPipeline,
            PipelineStep::RunPreResizeHooks => StepView::RunPreResizeHooks,
            PipelineStep::Pause { millis } => StepView::Pause { millis },
            PipelineStep::RestartDisplay { display, width, height } => StepView::RestartDisplay {
                display: display@,
                width,
                height,
            },
            PipelineStep::ReconnectInput => StepView::ReconnectInput,
            PipelineStep::RunPostStartCommand {
                display,
                command,
            } => StepView::RunPostStartCommand { display: display@, command: command@ },
            PipelineStep::StartPipeline { description } => StepView::StartPipeline {
                description: description@,
            },
            PipelineStep::PublishFrames => StepView::PublishFrames,
            PipelineStep::RunPostResizeHooks => StepView::RunPostResizeHooks,
        }
    }
}

/// What a list of steps says.
pub open spec fn step_views(steps: Seq<PipelineStep>) -> Seq<StepView> {
    steps.map_values(|s: PipelineStep| s@)
}

impl PipelineStep {
    /// Whether a restart goes on when this step fails.
    pub open spec fn optional(&self) -> bool {
        !(self is RestartDisplay || self is StartPipeline)
    }

    /// Whether a restart goes on when this step fails.
    pub fn is_optional(&self) -> (yes: bool)
        ensures
            yes == self.optional(),
    {
        match self {
            PipelineStep::RestartDisplay { .. } => false,
            PipelineStep::StartPipeline { .. } => false,
            _ => true,
        }
    }
}

/// The steps up to a display that was restarted: everything that holds on to the display is shut
/// down first, so that nothing breaks when it goes away.
pub open spec fn steps_to_display(display: Seq<char>, width: u16, height: u16) -> Seq<StepView> {
    seq![
        StepView::StopPipeline,
        StepView::RunPreResizeHooks,
        StepView::Pause { millis: 100 },
        StepView::RestartDisplay { display, width, height },
    ]
}

/// The steps from a display that was restarted to a pipeline that runs on it.
pub open spec fn steps_to_pipeline(
    config: Config,
    encoder: EncoderType,
    has_input: bool,
) -> Seq<StepView> {
    seq![StepView::Pause { millis: 50 }] + (if has_input {
        seq![StepView::ReconnectInput]
    } else {
        seq![]
    }) + (match config.post_start_command {
        Some(command) => seq![
            StepView::RunPostStartCommand { display: config.display@, command: command@ },
        ],
        None => seq![],
    }) + seq![StepView::StartPipeline { description: pipeline_text(config, encoder) }]
}

/// Whether two configurations agree but for the resolutions.
pub open spec fn same_but_resolution(a: Config, b: Config) -> bool {
    a == (Config { resolution: a.resolution, stream_resolution: a.stream_resolution, ..b })
}

/// Whether `new` is `old` with the display at this size and the video at the size of the display.
pub open spec fn resized(old_config: Config, new_config: Config, width: u16, height: u16) -> bool {
    &&& same_but_resolution(new_config, old_config)
    &&& new_config.resolution@ == resolution_text(width as nat, height as nat)
    &&& new_config.stream_resolution is None
}

/// The size of the display in a configuration, sixteen bits for each dimension.
pub open spec fn display_size_of(config: Config) -> (u16, u16) {
    ((config.width() % 0x1_0000) as u16, (config.height() % 0x1_0000) as u16)
}

/// A display that was resized has the size that it was given.
pub proof fn lemma_resized(old_config: Config, new_config: Config, width: u16, height: u16)
    requires
        resized(old_config, new_config, width, height),
    ensures
        new_config.width() == width,
        new_config.height() == height,
        new_config.stream_width() == width,
        new_config.stream_height() == height,
        display_size_of(new_config) == (width, height),
{
    lemma_resolution_splits(width as nat, height as nat);
    lemma_decimal_round_trip(width as nat, u32::MAX as nat);
    lemma_decimal_round_trip(height as nat, u32::MAX as nat);
}

/// Manages the life of the pipeline, restarts for new resolutions among it.
#[derive(Debug)]
pub struct PipelineManager {
    config: Config,
    encoder_type: EncoderType,
    controller: PipelineController,
    has_input: bool,
    display_size: Option<u32>,
}

/// Why the pipeline is restarted.
#[derive(Debug, Clone, Copy, PartialEq, Eq, Structural)]
pub enum RestartKind {
    /// The display gets another size.
    Resize,
    /// The display broke down.
    Recover,
    /// The display got another size from outside.
    Follow,
}

/// How far a restart has come.
#[derive(Debug, Clone, Copy, PartialEq, Eq, Structural)]
pub enum RestartStage {
    /// At its beginning.
    Begin,
    /// The display was restarted.
    DisplayUp,
    /// The pipeline was started.
    PipelineUp,
    /// At its end.
    Done,
}

/// A restart under way.
#[derive(Debug, Clone, Copy, PartialEq, Eq, Structural)]
pub struct Restart {
    pub kind: RestartKind,
    pub stage: RestartStage,
    pub width: u16,
    pub height: u16,
}

/// The restart that leads to a display of this size, rounded to even; it is done before it begins
/// if the display has that size already.
pub open spec fn resize_plan(size: (u16, u16), width: u16, height: u16) -> Restart {
    let (w, h) = (even_size(width), even_size(height));
    Restart {
        kind: RestartKind::Resize,
        stage: if size == (w, h) {
            RestartStage::Done
        } else {
            RestartStage::Begin
        },
        width: w,
        height: h,
    }
}

/// A restart as it is planned when the display has this size: a resize to that size is done, a
/// recovery keeps that size.
pub open spec fn planned_again(restart: Restart, size: (u16, u16)) -> Restart {
    match restart.kind {
        RestartKind::Resize => resize_plan(size, restart.width, restart.height),
        RestartKind::Recover => Restart {
            kind: RestartKind::Recover,
            stage: RestartStage::Begin,
            width: size.0,
            height: size.1,
        },
        RestartKind::Follow => Restart {
            kind: RestartKind::Follow,
            stage: RestartStage::Begin,
            width: even_size(restart.width),
            height: even_size(restart.height),
        },
    }
}

/// The stage after a stage: a restart that only follows the display does not restart it.
pub open spec fn next_stage(restart: Restart) -> RestartStage {
    match restart.stage {
        RestartStage::Begin => if restart.kind == RestartKind::Follow {
            RestartStage::PipelineUp
        } else {
            RestartStage::DisplayUp
        },
        RestartStage::DisplayUp => RestartStage::PipelineUp,
        RestartStage::PipelineUp => RestartStage::Done,
        RestartStage::Done => RestartStage::Done,
    }
}

/// Whether a stage takes over the new size: for a resize that is once the display was restarted,
/// before anything else sees it; to follow the display, at once; to recover it, never.
pub open spec fn takes_size(restart: Restart) -> bool {
    ||| restart.kind == RestartKind::Resize && restart.stage == RestartStage::DisplayUp
    ||| restart.kind == RestartKind::Follow && restart.stage == RestartStage::Begin
}

/// The steps of a stage, under the configuration that holds after it.
pub open spec fn stage_steps(
    restart: Restart,
    config: Config,
    encoder: EncoderType,
    has_input: bool,
) -> Seq<StepView> {
    match restart.stage {
        RestartStage::Begin => if restart.kind == RestartKind::Follow {
            seq![
                StepView::StopPipeline,
                StepView::Pause { millis: 50 },
                StepView::StartPipeline { description: pipeline_text(config, encoder) },
            ]
        } else {
            steps_to_display(config.display@, restart.width, restart.height)
        },
        RestartStage::DisplayUp => steps_to_pipeline(config, encoder, has_input),
        RestartStage::PipelineUp => if restart.kind == RestartKind::Follow {
            seq![StepView::PublishFrames]
        } else {
            seq![StepView::PublishFrames, StepView::RunPostResizeHooks]
        },
        RestartStage::Done => seq![],
    }
}

/// What comes of taking up the next stage of a restart: `before` and `after` are the managers
/// then and now.
pub open spec fn advanced(
    restart: Restart,
    before: &PipelineManager,
    after: &PipelineManager,
    steps: Seq<StepView>,
) -> bool {
    &&& after.same_setup(before)
    &&& if takes_size(restart) {
        resized(before.settings(), after.settings(), restart.width, restart.height)
    } else {
        after.settings() == before.settings()
    }
    &&& after.shared_size() == (match before.shared_size() {
        Some(packed) => Some(
            if takes_size(restart) && restart.kind == RestartKind::Resize {
                packed_size(restart.width, restart.height)
            } else {
                packed
            },
        ),
        None => None,
    })
    &&& match restart.stage {
        RestartStage::Begin => !after.current().runs() && after.current().kbps()
            == before.current().kbps(),
        RestartStage::PipelineUp => after.current().runs() && after.current().kbps()
            == before.settings().bitrate,
        _ => after.current() == before.current(),
    }
    &&& steps == stage_steps(restart, after.settings(), after.encoder(), after.with_input())
}

/// The size that a display of this size got from outside, going by what a query of it gave.
pub open spec fn external_size(
    queried: Result<(u16, u16), DisplayError>,
    size: (u16, u16),
) -> Option<(u16, u16)> {
    match queried {
        Ok(actual) => if actual == size {
            None
        } else {
            Some(actual)
        },
        Err(_) => None,
    }
}

impl PipelineManager {
    /// The configuration, with the resolution as it is now.
    pub closed spec fn settings(&self) -> Config {
        self.config
    }

    /// The encoder that pipelines are started with.
    pub closed spec fn encoder(&self) -> EncoderType {
        self.encoder_type
    }

    /// The running pipeline.
    pub closed spec fn current(&self) -> PipelineController {
        self.controller
    }

    /// Whether an input handler has to be connected again after a restart of the display.
    pub closed spec fn with_input(&self) -> bool {
        self.has_input
    }

    /// The packed display size that is shared for clamping window sizes, once it is.
    pub closed spec fn shared_size(&self) -> Option<u32> {
        self.display_size
    }

    /// The size of the display.
    pub open spec fn size(&self) -> (u16, u16) {
        display_size_of(self.settings())
    }

    /// Everything but the configuration, the running pipeline and the shared size is as in
    /// `other`.
    pub open spec fn same_setup(&self, other: &Self) -> bool {
        &&& self.encoder() == other.encoder()
        &&& self.with_input() == other.with_input()
    }

    /// A manager for a pipeline that was just started.
    pub fn new(config: Config, encoder_type: EncoderType, has_input: bool) -> (manager: Self)
        ensures
            manager.settings() == config,
            manager.encoder() == encoder_type,
            manager.with_input() == has_input,
            manager.current().runs(),
            manager.current().kbps() == config.bitrate,
            manager.shared_size() is None,
    {
        let controller = PipelineController::new(config.bitrate);
        PipelineManager { config, encoder_type, controller, has_input, display_size: None }
    }

    /// A manager with the default configuration but for a single app, whose pipeline runs or not,
    /// for trying out what depends on it.
    pub fn new_for_test(running: bool) -> (manager: Self)
        ensures
            manager.settings().is_default_but_apps(),
            manager.settings().launch_apps@ == "xterm"@,
            manager.encoder() == EncoderType::X264,
            manager.current().runs() == running,
            manager.current().kbps() == 6000,
            !manager.with_input(),
            manager.shared_size() is None,
    {
        let mut config = Config::default();
        config.launch_apps = "xterm".to_owned();
        PipelineManager {
            config,
            encoder_type: EncoderType::X264,
            controller: PipelineController::new_for_test(running),
            has_input: false,
            display_size: None,
        }
    }

    /// The description of the pipeline that the present configuration asks for.
    pub fn description(&self) -> (text: String)
        ensures
            text@ == pipeline_text(self.settings(), self.encoder()),
    {
        build_pipeline_string(&self.config, self.encoder_type)
    }

    /// Set the shared display size for coherence mode clamping.
    pub fn set_display_size(&mut self, packed: u32)
        ensures
            final(self).shared_size() == Some(packed),
            final(self).settings() == old(self).settings(),
            final(self).current() == old(self).current(),
            final(self).same_setup(old(self)),
    {
        self.display_size = Some(packed);
    }

    /// The shared display size, if it was set.
    pub fn display_size(&self) -> (packed: Option<u32>)
        ensures
            packed == self.shared_size(),
    {
        self.display_size
    }

    /// Returns the current display resolution as (width, height).
    pub fn current_resolution(&self) -> (size: (u16, u16))
        ensures
            size == self.size(),
    {
        (low_half(self.config.resolution_width()), low_half(self.config.resolution_height()))
    }

    /// Get the current pipeline controller.
    pub fn controller(&self) -> (controller: PipelineController)
        ensures
            controller == self.current(),
    {
        self.controller
    }

    pub fn is_running(&self) -> (running: bool)
        ensures
            running == self.current().runs(),
    {
        self.controller.is_running()
    }

    pub fn stop(&mut self)
        ensures
            !final(self).current().runs(),
            final(self).current().kbps() == old(self).current().kbps(),
            final(self).settings() == old(self).settings(),
            final(self).shared_size() == old(self).shared_size(),
            final(self).same_setup(old(self)),
    {
        self.controller.stop();
    }

    pub fn set_bitrate(&mut self, kbps: u32)
        ensures
            final(self).current().kbps() == kbps,
            final(self).current().runs() == old(self).current().runs(),
            final(self).settings() == old(self).settings(),
            final(self).shared_size() == old(self).shared_size(),
            final(self).same_setup(old(self)),
    {
        self.controller.set_bitrate(kbps);
    }

    /// Resize the display and restart the pipeline, unless the display has that size, rounded to
    /// even, already. [`PipelineManager::advance`] carries the restart out.
    pub fn resize(&self, width: u16, height: u16) -> (restart: Restart)
        ensures
            restart == resize_plan(self.size(), width, height),
    {
        let width = round_to_even(width);
        let height = round_to_even(height);
        let (current_w, current_h) = self.current_resolution();
        let stage = if current_w == width && current_h == height {
            RestartStage::Done
        } else {
            RestartStage::Begin
        };
        Restart { kind: RestartKind::Resize, stage, width, height }
    }

    /// Recover from an Xvfb crash by restarting it at the current resolution.
    ///
    /// This performs the same steps as `resize` but forces a restart even though the resolution
    /// hasn't changed. [`PipelineManager::advance`] carries the restart out.
    pub fn recover(&self) -> (restart: Restart)
        ensures
            restart == (Restart {
                kind: RestartKind::Recover,
                stage: RestartStage::Begin,
                width: self.size().0,
                height: self.size().1,
            }),
            restart == planned_again(restart, self.size()),
    {
        let (width, height) = self.current_resolution();
        Restart { kind: RestartKind::Recover, stage: RestartStage::Begin, width, height }
    }

    /// Restart the pipeline without changing the display.
    ///
    /// Use this when the display resolution changed externally (e.g. xrandr) and the pipeline
    /// needs to re-capture at the new size. [`PipelineManager::advance`] carries the restart out.
    pub fn restart_pipeline(&self, new_width: u16, new_height: u16) -> (restart: Restart)
        ensures
            restart == (Restart {
                kind: RestartKind::Follow,
                stage: RestartStage::Begin,
                width: even_size(new_width),
                height: even_size(new_height),
            }),
            restart == planned_again(restart, self.size()),
    {
        Restart {
            kind: RestartKind::Follow,
            stage: RestartStage::Begin,
            width: round_to_even(new_width),
            height: round_to_even(new_height),
        }
    }

    /// Plans a restart again when its turn comes: another may have come before it and have done
    /// what it is for.
    pub fn plan_again(&self, restart: Restart) -> (again: Restart)
        ensures
            again == planned_again(restart, self.size()),
    {
        match restart.kind {
            RestartKind::Resize => self.resize(restart.width, restart.height),
            RestartKind::Recover => self.recover(),
            RestartKind::Follow => self.restart_pipeline(restart.width, restart.height),
        }
    }

    /// The steps up to a display that was restarted at this size.
    fn display_steps(&self, width: u16, height: u16) -> (steps: Vec<PipelineStep>)
        ensures
            step_views(steps@) == steps_to_display(self.settings().display@, width, height),
    {
        let mut steps: Vec<PipelineStep> = Vec::new();
        steps.push(PipelineStep::StopPipeline);
        steps.push(PipelineStep::RunPreResizeHooks);
        steps.push(PipelineStep::Pause { millis: 100 });
        steps.push(
            PipelineStep::RestartDisplay { display: self.config.display.clone(), width, height },
        );
        proof {
            assert(step_views(steps@) =~= steps_to_display(
                self.settings().display@,
                width,
                height,
            ));
        }
        steps
    }

    /// The steps from a restarted display to a running pipeline.
    fn pipeline_steps(&self) -> (steps: Vec<PipelineStep>)
        ensures
            step_views(steps@) == steps_to_pipeline(
                self.settings(),
                self.encoder(),
                self.with_input(),
            ),
    {
        let mut steps: Vec<PipelineStep> = Vec::new();
        steps.push(PipelineStep::Pause { millis: 50 });
        if self.has_input {
            steps.push(PipelineStep::ReconnectInput);
        }
        if let Some(command) = &self.config.post_start_command {
            steps.push(
                PipelineStep::RunPostStartCommand {
                    display: self.config.display.clone(),
                    command: command.clone(),
                },
            );
        }
        steps.push(PipelineStep::StartPipeline { description: self.description() });
        proof {
            assert(step_views(steps@) =~= steps_to_pipeline(
                self.settings(),
                self.encoder(),
                self.with_input(),
            ));
        }
        steps
    }

    /// Takes over a resolution; the video has the size of the display from now on.
    fn take_resolution(&mut self, width: u16, height: u16)
        ensures
            resized(old(self).settings(), final(self).settings(), width, height),
            final(self).size() == (width, height),
            final(self).current() == old(self).current(),
            final(self).shared_size() == old(self).shared_size(),
            final(self).same_setup(old(self)),
    {
        self.config.resolution = write_resolution(width, height);
        self.config.stream_resolution = None;
        proof {
            lemma_resized(old(self).settings(), self.settings(), width, height);
        }
    }

    /// Takes up the next stage of a restart; gives the steps to take, none at its end. When all
    /// are taken, the stage after that is up. When one that is not optional fails, the restart
    /// ends there.
    pub fn advance(&mut self, restart: &mut Restart) -> (steps: Vec<PipelineStep>)
        ensures
            *final(restart) == (Restart { stage: next_stage(*old(restart)), ..*old(restart) }),
            advanced(*old(restart), old(self), final(self), step_views(steps@)),
    {
        let (width, height) = (restart.width, restart.height);
        match (restart.kind, restart.stage) {
            (RestartKind::Follow, RestartStage::Begin) => {
                self.take_resolution(width, height);
                self.controller.stop();
                restart.stage = RestartStage::PipelineUp;
                self.follow_steps()
            },
            (_, RestartStage::Begin) => {
                self.controller.stop();
                restart.stage = RestartStage::DisplayUp;
                self.display_steps(width, height)
            },
            (kind, RestartStage::DisplayUp) => {
                if kind == RestartKind::Resize {
                    self.take_resolution(width, height);
                    if self.display_size.is_some() {
                        self.display_size = Some(pack_display_size(width, height));
                    }
                }
                restart.stage = RestartStage::PipelineUp;
                self.pipeline_steps()
            },
            (kind, RestartStage::PipelineUp) => {
                self.controller = PipelineController::new(self.config.bitrate);
                restart.stage = RestartStage::Done;
                self.final_steps(kind)
            },
            (_, RestartStage::Done) => {
                let steps: Vec<PipelineStep> = Vec::new();
                proof {
                    assert(step_views(steps@) =~= Seq::<StepView>::empty());
                }
                steps
            },
        }
    }

    /// The steps that start a pipeline on a display that got another size.
    fn follow_steps(&self) -> (steps: Vec<PipelineStep>)
        ensures
            step_views(steps@) == seq![
                StepView::StopPipeline,
                StepView::Pause { millis: 50 },
                StepView::StartPipeline {
                    description: pipeline_text(self.settings(), self.encoder()),
                },
            ],
    {
        let mut steps: Vec<PipelineStep> = Vec::new();
        steps.push(PipelineStep::StopPipeline);
        steps.push(PipelineStep::Pause { millis: 50 });
        steps.push(PipelineStep::StartPipeline { description: self.description() });
        proof {
            assert(step_views(steps@) =~= seq![
                StepView::StopPipeline,
                StepView::Pause { millis: 50 },
                StepView::StartPipeline {
                    description: pipeline_text(self.settings(), self.encoder()),
                },
            ]);
        }
        steps
    }

    /// The steps that are left once the pipeline was started.
    fn final_steps(&self, kind: RestartKind) -> (steps: Vec<PipelineStep>)
        ensures
            step_views(steps@) == (if kind == RestartKind::Follow {
                seq![StepView::PublishFrames]
            } else {
                seq![StepView::PublishFrames, StepView::RunPostResizeHooks]
            }),
    {
        let mut steps: Vec<PipelineStep> = Vec::new();
        steps.push(PipelineStep::PublishFrames);
        if kind != RestartKind::Follow {
            steps.push(PipelineStep::RunPostResizeHooks);
        }
        proof {
            if kind == RestartKind::Follow {
                assert(step_views(steps@) =~= seq![StepView::PublishFrames]);
            } else {
                assert(step_views(steps@) =~= seq![
                    StepView::PublishFrames,
                    StepView::RunPostResizeHooks,
                ]);
            }
        }
        steps
    }

    /// The size to restart the pipeline at, if the display was found to have another size than
    /// the pipeline; a display that could not be queried is left alone.
    pub fn external_change(&self, queried: Result<(u16, u16), DisplayError>) -> (size: Option<
        (u16, u16),
    >)
        ensures
            size == external_size(queried, self.size()),
            size == (match queried {
                Ok(actual) => if actual == self.size() {
                    None
                } else {
                    Some(actual)
                },
                Err(_) => None,
            }),
    {
        match queried {
            Ok((actual_w, actual_h)) => {
                let (current_w, current_h) = self.current_resolution();
                if actual_w != current_w || actual_h != current_h {
                    Some((actual_w, actual_h))
                } else {
                    None
                }
            },
            Err(_) => None,
        }
    }
}

// ---------------------------------------------------------------------------
// Watching the display
// ---------------------------------------------------------------------------

/// Counts how often in a row the display could not be queried.
#[derive(Debug)]
pub struct Watchdog {
    failures: u32,
    threshold: u32,
}

/// How many failures in a row call for a recovery: at least one.
pub open spec fn patience(threshold: u32) -> nat {
    if threshold == 0 {
        1
    } else {
        threshold as nat
    }
}

impl Watchdog {
    /// The failures in a row since the last success or recovery.
    pub closed spec fn count(&self) -> nat {
        self.failures as nat
    }

    /// The failures in a row that call for a recovery.
    pub closed spec fn limit(&self) -> u32 {
        self.threshold
    }

    /// The count stays under the limit.
    pub open spec fn wf(&self) -> bool {
        self.count() < patience(self.limit())
    }

    /// A watchdog that has seen nothing yet.
    pub fn new(failure_threshold: u32) -> (watchdog: Self)
        ensures
            watchdog.wf(),
            watchdog.count() == 0,
            watchdog.limit() == failure_threshold,
    {
        Watchdog { failures: 0, threshold: failure_threshold }
    }

    /// Takes note of a query; says whether the display is to be recovered. A success or a
    /// recovery starts the count anew.
    pub fn observe(&mut self, alive: bool) -> (recover: bool)
        requires
            old(self).wf(),
        ensures
            final(self).wf(),
            final(self).limit() == old(self).limit(),
            (final(self).count(), recover) == watched(old(self).limit(), old(self).count(), alive),
    {
        if alive {
            self.failures = 0;
            return false;
        }
        self.failures = self.failures + 1;
        if self.failures >= self.threshold {
            self.failures = 0;
            true
        } else {
            false
        }
    }
}

/// The count after a query, and whether it calls for a recovery.
pub open spec fn watched(limit: u32, count: nat, alive: bool) -> (nat, bool) {
    if alive {
        (0, false)
    } else if count + 1 >= patience(limit) {
        (0, true)
    } else {
        (count + 1, false)
    }
}

/// The count after a series of queries.
pub open spec fn count_after(limit: u32, queries: Seq<bool>) -> nat
    decreases queries.len(),
{
    if queries.len() == 0 {
        0
    } else {
        watched(limit, count_after(limit, queries.drop_last()), queries.last()).0
    }
}

/// Whether the last of a series of queries calls for a recovery.
pub open spec fn recovers_after(limit: u32, queries: Seq<bool>) -> bool {
    queries.len() > 0 && watched(
        limit,
        count_after(limit, queries.drop_last()),
        queries.last(),
    ).1
}

// ---------------------------------------------------------------------------
// Laws
// ---------------------------------------------------------------------------

/// Rounding gives an even number that is not zero, and changes no such number.
pub proof fn law_even_size(dim: u16)
    ensures
        even_size(dim) % 2 == 0,
        even_size(dim) >= 2,
        even_size(even_size(dim)) == even_size(dim),
        dim >= 2 && dim % 2 == 0 ==> even_size(dim) == dim,
{
}

/// Rounding goes up to the nearest even number; the one dimension that has none above it goes
/// down.
pub proof fn law_even_size_is_nearest(dim: u16, even: u16)
    requires
        even >= 2,
        even % 2 == 0,
        even >= dim,
    ensures
        dim <= even_size(dim) <= even,
{
}

/// Packing loses nothing, in either direction.
pub proof fn law_packing_round_trip(width: u16, height: u16, packed: u32)
    ensures
        packed_size(width, height) / 0x1_0000 == width,
        packed_size(width, height) % 0x1_0000 == height,
        packed_size((packed / 0x1_0000) as u16, (packed % 0x1_0000) as u16) == packed,
{
}

/// A clamped size is within the display, no larger than what was asked for, and clamped once and
/// for all.
pub proof fn law_clamped_size(width: u16, height: u16, display_w: u16, display_h: u16)
    ensures
        ({
            let (w, h) = clamped_size(width, height, display_w, display_h);
            &&& w <= width && h <= height
            &&& display_w > 0 && display_h > 0 ==> w <= display_w && h <= display_h
            &&& display_w == 0 || display_h == 0 ==> (w, h) == (width, height)
            &&& clamped_size(w, h, display_w, display_h) == (w, h)
        }),
{
}

/// A window size that is rounded and then clamped is still even, on a display of even size.
pub proof fn law_window_size_is_even(width: u16, height: u16, display_w: u16, display_h: u16)
    requires
        display_w % 2 == 0,
        display_h % 2 == 0,
    ensures
        ({
            let (w, h) = clamped_size(
                even_size(width),
                even_size(height),
                display_w,
                display_h,
            );
            &&& w % 2 == 0 && h % 2 == 0
            &&& w >= 2 && h >= 2
        }),
{
}

/// A resize that is carried out to its end: the display has the size that was asked for, rounded
/// to even, the size is shared if it was before, the video has the size of the display, and the
/// pipeline runs; asking for the same size again does nothing. Up to the restart of the display
/// the settings are untouched, so that a restart that fails leaves them as they were.
pub proof fn law_resize_carried_out(
    m0: &PipelineManager,
    m1: &PipelineManager,
    m2: &PipelineManager,
    m3: &PipelineManager,
    width: u16,
    height: u16,
    steps1: Seq<StepView>,
    steps2: Seq<StepView>,
    steps3: Seq<StepView>,
)
    requires
        ({
            let r0 = resize_plan(m0.size(), width, height);
            let r1 = Restart { stage: next_stage(r0), ..r0 };
            let r2 = Restart { stage: next_stage(r1), ..r1 };
            &&& r0.stage == RestartStage::Begin
            &&& advanced(r0, m0, m1, steps1)
            &&& advanced(r1, m1, m2, steps2)
            &&& advanced(r2, m2, m3, steps3)
        }),
    ensures
        m1.settings() == m0.settings(),
        m1.shared_size() == m0.shared_size(),
        m3.size() == (even_size(width), even_size(height)),
        m3.shared_size() == (match m0.shared_size() {
            Some(_) => Some(packed_size(even_size(width), even_size(height))),
            None => None,
        }),
        scale_text(m3.settings()) == Seq::<char>::empty(),
        m3.current().runs(),
        resize_plan(m3.size(), width, height).stage == RestartStage::Done,
{
    lemma_resized(m1.settings(), m2.settings(), even_size(width), even_size(height));
}

/// Of two requests for one size the second does nothing once the first was carried out, and
/// planning a request again changes nothing as long as the display keeps its size.
pub proof fn law_resize_planned_again(size: (u16, u16), width: u16, height: u16)
    ensures
        planned_again(resize_plan(size, width, height), size) == resize_plan(size, width, height),
        planned_again(
            resize_plan(size, width, height),
            (even_size(width), even_size(height)),
        ).stage == RestartStage::Done,
{
}

/// A recovery that is carried out to its end leaves every setting as it was, and takes the steps
/// that a resize to the present size would take.
pub proof fn law_recovery_carried_out(
    m0: &PipelineManager,
    m1: &PipelineManager,
    m2: &PipelineManager,
    m3: &PipelineManager,
    steps1: Seq<StepView>,
    steps2: Seq<StepView>,
    steps3: Seq<StepView>,
)
    requires
        ({
            let (width, height) = m0.size();
            let r0 = Restart {
                kind: RestartKind::Recover,
                stage: RestartStage::Begin,
                width,
                height,
            };
            let r1 = Restart { stage: next_stage(r0), ..r0 };
            let r2 = Restart { stage: next_stage(r1), ..r1 };
            &&& advanced(r0, m0, m1, steps1)
            &&& advanced(r1, m1, m2, steps2)
            &&& advanced(r2, m2, m3, steps3)
        }),
    ensures
        m3.settings() == m0.settings(),
        m3.shared_size() == m0.shared_size(),
        m3.current().runs(),
        steps1 + steps2 + steps3 == steps_to_display(m0.settings().display@, m0.size().0, m0.size().1)
            + steps_to_pipeline(m0.settings(), m0.encoder(), m0.with_input()) + seq![
            StepView::PublishFrames,
            StepView::RunPostResizeHooks,
        ],
{
}

/// A restart for a size that was changed from outside settles, if that size is even and not
/// zero: the next look at the display finds no change.
pub proof fn law_external_change_settles(
    m0: &PipelineManager,
    m1: &PipelineManager,
    width: u16,
    height: u16,
    steps: Seq<StepView>,
)
    requires
        width >= 2 && width % 2 == 0,
        height >= 2 && height % 2 == 0,
        advanced(
            Restart {
                kind: RestartKind::Follow,
                stage: RestartStage::Begin,
                width: even_size(width),
                height: even_size(height),
            },
            m0,
            m1,
            steps,
        ),
    ensures
        m1.size() == (width, height),
{
    lemma_resized(m0.settings(), m1.settings(), even_size(width), even_size(height));
}

/// The steps of a restart from its beginning to its end.
pub open spec fn all_steps(
    kind: RestartKind,
    width: u16,
    height: u16,
    config: Config,
    encoder: EncoderType,
    has_input: bool,
) -> Seq<StepView> {
    let begin = Restart { kind, stage: RestartStage::Begin, width, height };
    let display_up = Restart { stage: RestartStage::DisplayUp, ..begin };
    let pipeline_up = Restart { stage: RestartStage::PipelineUp, ..begin };
    stage_steps(begin, config, encoder, has_input) + stage_steps(
        display_up,
        config,
        encoder,
        has_input,
    ) + stage_steps(pipeline_up, config, encoder, has_input)
}

/// Where the display is restarted, whatever holds on to it is shut down before that, nothing is
/// started on it or connected to it before that, and sessions and other users hear of it only
/// once the new pipeline was started.
pub proof fn law_display_is_released_first(
    kind: RestartKind,
    width: u16,
    height: u16,
    config: Config,
    encoder: EncoderType,
    has_input: bool,
)
    requires
        kind != RestartKind::Follow,
    ensures
        ({
            let steps = all_steps(kind, width, height, config, encoder, has_input);
            let n = steps.len() as int;
            &&& n >= 8
            &&& forall|i: int| 0 <= i < n ==> ((#[trigger] steps[i]) is RestartDisplay <==> i == 3)
            &&& forall|i: int| 0 <= i < n ==> ((#[trigger] steps[i]) is StopPipeline <==> i == 0)
            &&& forall|i: int|
                0 <= i < n ==> ((#[trigger] steps[i]) is RunPreResizeHooks <==> i == 1)
            &&& forall|i: int|
                0 <= i < n && ((#[trigger] steps[i]) is ReconnectInput
                    || steps[i] is RunPostStartCommand) ==> 3 < i < n - 3
            &&& forall|i: int|
                0 <= i < n ==> ((#[trigger] steps[i]) is StartPipeline <==> i == n - 3)
            &&& forall|i: int|
                0 <= i < n ==> ((#[trigger] steps[i]) is PublishFrames <==> i == n - 2)
            &&& forall|i: int|
                0 <= i < n ==> ((#[trigger] steps[i]) is RunPostResizeHooks <==> i == n - 1)
        }),
{
}

/// Where a part stands in a text, a part of the part stands too.
proof fn lemma_contains(before: Seq<char>, part: Seq<char>, after: Seq<char>, pattern: Seq<char>)
    requires
        contains_text(part, pattern),
    ensures
        contains_text(before + part + after, pattern),
{
    let at = choose|at: int| stands_at(part, pattern, at);
    let s = before + part + after;
    let there = before.len() + at;
    assert(s.subrange(there, there + pattern.len()) =~= part.subrange(at, at + pattern.len()));
    assert(stands_at(s, pattern, there));
}

/// Every encoder is named in its description.
proof fn lemma_encoder_named(encoder: EncoderType, bitrate: nat, ki: nat)
    ensures
        contains_text(encoder_text(encoder, bitrate, ki), "name=encoder"@),
{
    reveal_strlit("name=encoder");
    match encoder {
        EncoderType::X264 => {
            reveal_strlit("videoconvert ! video/x-raw,format=I420 ! x264enc name=encoder tune=zerolatency speed-preset=ultrafast bitrate=");
            let head = "videoconvert ! video/x-raw,format=I420 ! x264enc name=encoder tune=zerolatency speed-preset=ultrafast bitrate="@;
            let tail = decimal(bitrate) + " key-int-max="@ + decimal(ki) + " bframes=0"@;
            assert(head.subrange(49, 61) =~= "name=encoder"@);
            assert(stands_at(head, "name=encoder"@, 49));
            lemma_contains(seq![], head, tail, "name=encoder"@);
            assert(encoder_text(encoder, bitrate, ki) =~= seq![] + head + tail);
        },
        EncoderType::Nvenc => {
            reveal_strlit("nvh264enc name=encoder preset=low-latency-hq rc-mode=cbr bitrate=");
            let head = "nvh264enc name=encoder preset=low-latency-hq rc-mode=cbr bitrate="@;
            let tail = decimal(bitrate) + " gop-size="@ + decimal(ki)
                + " bframes=0 zerolatency=true"@;
            assert(head.subrange(10, 22) =~= "name=encoder"@);
            assert(stands_at(head, "name=encoder"@, 10));
            lemma_contains(seq![], head, tail, "name=encoder"@);
            assert(encoder_text(encoder, bitrate, ki) =~= seq![] + head + tail);
        },
        EncoderType::Vaapi => {
            reveal_strlit("vaapih264enc name=encoder rate-control=cbr bitrate=");
            let head = "vaapih264enc name=encoder rate-control=cbr bitrate="@;
            let tail = decimal(bitrate) + " keyframe-period="@ + decimal(ki);
            assert(head.subrange(13, 25) =~= "name=encoder"@);
            assert(stands_at(head, "name=encoder"@, 13));
            lemma_contains(seq![], head, tail, "name=encoder"@);
            assert(encoder_text(encoder, bitrate, ki) =~= seq![] + head + tail);
        },
    }
}

/// The end of every pipeline names the sink.
proof fn lemma_sink_named()
    ensures
        contains_text(sink_text(), "appsink name=sink"@),
{
    reveal_strlit("appsink name=sink");
    reveal_strlit(" ! video/x-h264,stream-format=byte-stream,alignment=au ! appsink name=sink emit-signals=true sync=false");
    assert(sink_text().subrange(57, 74) =~= "appsink name=sink"@);
    assert(stands_at(sink_text(), "appsink name=sink"@, 57));
}

/// Every pipeline has an element named `encoder` and a sink named `sink`: the two that are looked
/// up by name once it is built.
pub proof fn law_pipeline_names_its_parts(
    config: Config,
    encoder: EncoderType,
    display: Seq<char>,
    window_id: nat,
    fps: nat,
    bitrate: nat,
    ki: nat,
)
    ensures
        contains_text(pipeline_text(config, encoder), "name=encoder"@),
        contains_text(pipeline_text(config, encoder), "appsink name=sink"@),
        contains_text(
            window_pipeline_text(display, window_id, fps, bitrate, ki, encoder),
            "name=encoder"@,
        ),
        contains_text(
            window_pipeline_text(display, window_id, fps, bitrate, ki, encoder),
            "appsink name=sink"@,
        ),
{
    lemma_sink_named();
    let part = encoder_text(encoder, config.bitrate as nat, config.keyframe_interval as nat);
    lemma_encoder_named(encoder, config.bitrate as nat, config.keyframe_interval as nat);
    let head = "ximagesrc display-name="@ + config.display@
        + " use-damage=0 show-pointer=true ! video/x-raw,framerate="@ + decimal(config.fps as nat)
        + "/1 "@ + scale_text(config) + "! "@;
    lemma_contains(head, part, sink_text(), "name=encoder"@);
    lemma_contains(head + part, sink_text(), seq![], "appsink name=sink"@);
    assert(pipeline_text(config, encoder) =~= head + part + sink_text());
    assert(pipeline_text(config, encoder) =~= head + part + sink_text() + seq![]);
    let window_part = encoder_text(encoder, bitrate, ki);
    lemma_encoder_named(encoder, bitrate, ki);
    let window_head = "ximagesrc display-name="@ + display + " xid="@ + decimal(window_id)
        + " use-damage=0 show-pointer=true ! video/x-raw,framerate="@ + decimal(fps) + "/1 ! "@;
    let window_text = window_pipeline_text(display, window_id, fps, bitrate, ki, encoder);
    lemma_contains(window_head, window_part, sink_text(), "name=encoder"@);
    lemma_contains(window_head + window_part, sink_text(), seq![], "appsink name=sink"@);
    assert(window_text =~= window_head + window_part + sink_text());
    assert(window_text =~= window_head + window_part + sink_text() + seq![]);
}

/// A recovery comes with the failure that fills the patience, counted from a success, a recovery
/// or the start, and with none before it.
pub proof fn law_watchdog_waits(limit: u32, before: Seq<bool>, failures: nat)
    requires
        count_after(limit, before) == 0,
        0 < failures <= patience(limit),
    ensures
        recovers_after(limit, before + Seq::new(failures, |i: int| false)) <==> failures
            == patience(limit),
        count_after(limit, before + Seq::new(failures, |i: int| false)) == (if failures
            == patience(limit) {
            0
        } else {
            failures
        }),
    decreases failures,
{
    let queries = before + Seq::new(failures, |i: int| false);
    let fewer = before + Seq::new((failures - 1) as nat, |i: int| false);
    assert(queries.drop_last() =~= fewer);
    if failures == 1 {
        assert(fewer =~= before);
    } else {
        law_watchdog_waits(limit, before, (failures - 1) as nat);
    }
}

/// A display that answers is never recovered, and starts the count anew.
pub proof fn law_watchdog_spares_the_living(limit: u32, before: Seq<bool>)
    ensures
        !recovers_after(limit, before.push(true)),
        count_after(limit, before.push(true)) == 0,
{
    assert(before.push(true).drop_last() =~= before);
}

/// A planned resize leads to even sides: each is the least even number that is at least 2 and at
/// least what was asked for, or 65534 where there is none. It is done before it begins exactly if
/// the display has both of these sides; if either differs, it starts at its beginning.
pub proof fn law_resize_done_only_at_size(size: (u16, u16), width: u16, height: u16)
    ensures
        ({
            let restart = resize_plan(size, width, height);
            &&& restart.kind == RestartKind::Resize
            &&& restart.width % 2 == 0 && restart.width >= 2
            &&& width < 65535 ==> width <= restart.width && restart.width - 2 < (if width < 2 {
                2
            } else {
                width as int
            })
            &&& width == 65535 ==> restart.width == 65534
            &&& restart.height % 2 == 0 && restart.height >= 2
            &&& height < 65535 ==> height <= restart.height && restart.height - 2 < (if height < 2 {
                2
            } else {
                height as int
            })
            &&& height == 65535 ==> restart.height == 65534
            &&& restart.stage == RestartStage::Done <==> size.0 == restart.width && size.1
                == restart.height
            &&& size.0 != restart.width ==> restart.stage == RestartStage::Begin
            &&& size.1 != restart.height ==> restart.stage == RestartStage::Begin
        }),
{
}

/// A size is cut to the display on each side by itself: a side that fits is kept, one that does
/// not is that of the display.
pub proof fn law_clamped_sides(width: u16, height: u16, display_w: u16, display_h: u16)
    requires
        display_w > 0,
        display_h > 0,
    ensures
        ({
            let (w, h) = clamped_size(width, height, display_w, display_h);
            &&& width <= display_w ==> w == width
            &&& width > display_w ==> w == display_w
            &&& height <= display_h ==> h == height
            &&& height > display_h ==> h == display_h
        }),
{
}

/// A restart that is planned again is a restart of the same kind from its beginning: a recovery
/// keeps the size that the display has, whatever was planned before; one that follows the display
/// keeps the size that was found, rounded to even.
pub proof fn law_planned_again(restart: Restart, size: (u16, u16))
    ensures
        ({
            let again = planned_again(restart, size);
            &&& again.kind == restart.kind
            &&& restart.kind != RestartKind::Resize ==> again.stage == RestartStage::Begin
            &&& restart.kind == RestartKind::Recover ==> again.width == size.0 && again.height
                == size.1
            &&& restart.kind != RestartKind::Recover && restart.width >= 2 && restart.width % 2 == 0
                ==> again.width == restart.width
            &&& restart.kind != RestartKind::Recover && restart.height >= 2 && restart.height % 2
                == 0 ==> again.height == restart.height
            &&& restart.kind != RestartKind::Recover && restart.width % 2 == 1 && restart.width
                < 65535 ==> again.width == restart.width + 1
            &&& restart.kind != RestartKind::Recover && restart.height % 2 == 1 && restart.height
                < 65535 ==> again.height == restart.height + 1
        }),
{
}

/// A restart comes to its end in three stages, or in two if it only follows the display, and stays
/// there; the display is restarted in between unless the restart only follows it.
pub proof fn law_restart_ends(kind: RestartKind, width: u16, height: u16)
    ensures
        ({
            let r0 = Restart { kind, stage: RestartStage::Begin, width, height };
            let r1 = Restart { stage: next_stage(r0), ..r0 };
            let r2 = Restart { stage: next_stage(r1), ..r1 };
            let r3 = Restart { stage: next_stage(r2), ..r2 };
            &&& r3.stage == RestartStage::Done
            &&& r2.stage == RestartStage::Done <==> kind == RestartKind::Follow
            &&& r1.stage != RestartStage::Done
            &&& r1.stage == RestartStage::DisplayUp <==> kind != RestartKind::Follow
            &&& next_stage(r3) == RestartStage::Done
        }),
{
}

/// While a restart is under way no pipeline runs; at its end one does, at the configured bitrate,
/// whatever the bitrate was before. What the restart is not about keeps its setting.
pub proof fn law_restart_keeps_settings(
    kind: RestartKind,
    width: u16,
    height: u16,
    m0: &PipelineManager,
    m1: &PipelineManager,
    m2: &PipelineManager,
    m3: &PipelineManager,
    steps: (Seq<StepView>, Seq<StepView>, Seq<StepView>),
)
    requires
        ({
            let r0 = Restart { kind, stage: RestartStage::Begin, width, height };
            let r1 = Restart { stage: next_stage(r0), ..r0 };
            let r2 = Restart { stage: next_stage(r1), ..r1 };
            &&& advanced(r0, m0, m1, steps.0)
            &&& advanced(r1, m1, m2, steps.1)
            &&& advanced(r2, m2, m3, steps.2)
        }),
    ensures
        !m1.current().runs(),
        kind != RestartKind::Follow ==> !m2.current().runs(),
        m1.current().kbps() == m0.current().kbps(),
        m3.current().runs(),
        m3.current().kbps() == m0.settings().bitrate,
        m3.settings().display == m0.settings().display,
        m3.settings().fps == m0.settings().fps,
        m3.settings().bitrate == m0.settings().bitrate,
        m3.settings().keyframe_interval == m0.settings().keyframe_interval,
        m3.settings().post_start_command == m0.settings().post_start_command,
        m3.settings().window_bitrate == m0.settings().window_bitrate,
        m3.settings().max_window_pipelines == m0.settings().max_window_pipelines,
        m3.settings().launch_apps == m0.settings().launch_apps,
        m3.settings().jwt_secret == m0.settings().jwt_secret,
        m3.encoder() == m0.encoder(),
        m3.with_input() == m0.with_input(),
{
}

/// A restart that follows the display to a size leaves the display alone, does not share the size,
/// and at its end the pipeline has that size.
pub proof fn law_display_followed(
    width: u16,
    height: u16,
    m0: &PipelineManager,
    m1: &PipelineManager,
    m2: &PipelineManager,
    steps: (Seq<StepView>, Seq<StepView>),
)
    requires
        ({
            let r0 = Restart {
                kind: RestartKind::Follow,
                stage: RestartStage::Begin,
                width,
                height,
            };
            let r1 = Restart { stage: next_stage(r0), ..r0 };
            &&& advanced(r0, m0, m1, steps.0)
            &&& advanced(r1, m1, m2, steps.1)
        }),
    ensures
        m2.size() == (width, height),
        m2.settings().stream_width() == width,
        m2.settings().stream_height() == height,
        m2.shared_size() == m0.shared_size(),
        m2.current().runs(),
        steps.0.len() == 3 && steps.1.len() == 1,
        steps.0[0] is StopPipeline,
        steps.0[1] == (StepView::Pause { millis: 50 }),
        steps.0[2] == (StepView::StartPipeline {
            description: pipeline_text(m2.settings(), m0.encoder()),
        }),
        steps.1[0] is PublishFrames,
{
    lemma_resized(m0.settings(), m1.settings(), width, height);
}

/// Where the display is restarted, it is restarted under its own name and at the size of the
/// restart. After that the input handler is connected exactly if there is one, the configured
/// command is run exactly if there is one, and the pipeline is started that the configuration
/// describes.
pub proof fn law_restart_steps(
    kind: RestartKind,
    width: u16,
    height: u16,
    config: Config,
    encoder: EncoderType,
    has_input: bool,
)
    requires
        kind != RestartKind::Follow,
    ensures
        ({
            let steps = all_steps(kind, width, height, config, encoder, has_input);
            let n = steps.len() as int;
            &&& n == 8 + (if has_input {
                1int
            } else {
                0int
            }) + (if config.post_start_command is Some {
                1int
            } else {
                0int
            })
            &&& steps[2] == (StepView::Pause { millis: 100 })
            &&& steps[3] == (StepView::RestartDisplay { display: config.display@, width, height })
            &&& steps[4] == (StepView::Pause { millis: 50 })
            &&& has_input <==> steps[5] is ReconnectInput
            &&& config.post_start_command matches Some(command) ==> steps[n - 4] == (
            StepView::RunPostStartCommand { display: config.display@, command: command@ })
            &&& config.post_start_command is None ==> !(steps[n - 4] is RunPostStartCommand)
            &&& steps[n - 3] == (StepView::StartPipeline {
                description: pipeline_text(config, encoder),
            })
        }),
{
}

/// A recovery comes with the failure that makes as many in a row as the limit, counted from the
/// start or from the last success, and with no failure before it; a limit of zero or one calls for
/// a recovery with every failure.
pub proof fn law_recovery_at_limit(limit: u32, before: Seq<bool>, failures: nat)
    requires
        before.len() == 0 || before.last(),
        failures > 0,
        failures <= limit || failures == 1,
    ensures
        ({
            let queries = before + Seq::new(failures, |i: int| false);
            recovers_after(limit, queries) <==> failures >= limit
        }),
{
    if before.len() > 0 {
        let earlier = before.drop_last();
        law_watchdog_spares_the_living(limit, earlier);
        assert(earlier.push(true) =~= before);
    }
    law_watchdog_waits(limit, before, failures);
}

/// After a recovery the count starts anew: the next one comes after as many failures again.
pub proof fn law_recovery_starts_anew(limit: u32, queries: Seq<bool>, failures: nat)
    requires
        recovers_after(limit, queries),
        0 < failures <= limit,
    ensures
        recovers_after(limit, queries + Seq::new(failures, |i: int| false)) <==> failures == limit,
{
    law_watchdog_waits(limit, queries, failures);
}

/// A text stands in what it is a part of.
proof fn lemma_part_stands(before: Seq<char>, part: Seq<char>, after: Seq<char>)
    ensures
        contains_text(before + part + after, part),
{
    let s = before + part + after;
    let there = before.len() as int;
    assert(s.subrange(there, there + part.len()) =~= part);
    assert(stands_at(s, part, there));
}

/// What a text ends with, and what follows it, stand together in the text made of both.
proof fn lemma_settings_stand(
    before: Seq<char>,
    name: Seq<char>,
    a: Seq<char>,
    b: Seq<char>,
    c: Seq<char>,
    d: Seq<char>,
)
    ensures
        contains_text(before + name + a + b + c + d, name + a + b + c + d),
        contains_text(before + name + a + b + c, name + a + b + c),
{
    let one = name + a;
    let two = one + b;
    let three = two + c;
    let four = three + d;
    assert(before + name + a =~= before + one);
    assert(before + one + b =~= before + two);
    assert(before + two + c =~= before + three);
    assert(before + three + d =~= before + four);
    lemma_part_stands(before, three, seq![]);
    assert(before + three + seq![] =~= before + three);
    lemma_part_stands(before, four, seq![]);
    assert(before + four + seq![] =~= before + four);
}

/// What stands in the head of a text stands in the text, and what it starts with, it starts with.
proof fn lemma_head_counts(
    head: Seq<char>,
    a: Seq<char>,
    b: Seq<char>,
    c: Seq<char>,
    d: Seq<char>,
    pattern: Seq<char>,
)
    ensures
        contains_text(head, pattern) ==> contains_text(head + a + b + c + d, pattern),
        starts_with(head, pattern) ==> starts_with(head + a + b + c + d, pattern) && starts_with(
            head + a + b + c,
            pattern,
        ),
{
    let text = head + a + b + c + d;
    if contains_text(head, pattern) {
        lemma_contains(seq![], head, a + b + c + d, pattern);
        assert(seq![] + head + (a + b + c + d) =~= text);
    }
    if starts_with(head, pattern) {
        let n = pattern.len() as int;
        assert(text.subrange(0, n) =~= head.subrange(0, n));
        assert((head + a + b + c).subrange(0, n) =~= head.subrange(0, n));
    }
}

/// The software encoder's part names its element, asks for no delay and no frames that build on
/// later ones, and says the bitrate and the distance between keyframes under the element's own
/// names for them.
pub proof fn law_x264_settings(bitrate: nat, ki: nat)
    ensures
        ({
            let text = encoder_text(EncoderType::X264, bitrate, ki);
            &&& contains_text(text, "x264enc name=encoder tune=zerolatency "@)
            &&& contains_text(
                text,
                " bitrate="@ + decimal(bitrate) + " key-int-max="@ + decimal(ki) + " bframes=0"@,
            )
        }),
{
    let head = "videoconvert ! video/x-raw,format=I420 ! x264enc name=encoder tune=zerolatency speed-preset=ultrafast bitrate="@;
    let element = "x264enc name=encoder tune=zerolatency "@;
    let at = head.len() - 9;
    assert(head == head.take(at) + " bitrate="@) by {
        reveal_strlit(" bitrate=");
        reveal_strlit("videoconvert ! video/x-raw,format=I420 ! x264enc name=encoder tune=zerolatency speed-preset=ultrafast bitrate=");
        assert(head.skip(at) =~= " bitrate="@);
        assert(head =~= head.take(at) + " bitrate="@);
    }
    assert(contains_text(head, element)) by {
        reveal_strlit("x264enc name=encoder tune=zerolatency ");
        reveal_strlit("videoconvert ! video/x-raw,format=I420 ! x264enc name=encoder tune=zerolatency speed-preset=ultrafast bitrate=");
        assert(head.subrange(41, 79) =~= element);
        assert(stands_at(head, element, 41));
    }
    let (a, b, c, d) = (decimal(bitrate), " key-int-max="@, decimal(ki), " bframes=0"@);
    lemma_settings_stand(head.take(at), " bitrate="@, a, b, c, d);
    lemma_head_counts(head, a, b, c, d, element);
}

/// NVIDIA's encoder's part starts with its element, and says the bitrate and the distance between
/// keyframes under the element's own names for them, with no frames that build on later ones and
/// no delay.
pub proof fn law_nvenc_settings(bitrate: nat, ki: nat)
    ensures
        ({
            let text = encoder_text(EncoderType::Nvenc, bitrate, ki);
            &&& starts_with(text, "nvh264enc name=encoder "@)
            &&& contains_text(
                text,
                " bitrate="@ + decimal(bitrate) + " gop-size="@ + decimal(ki)
                    + " bframes=0 zerolatency=true"@,
            )
        }),
{
    let head = "nvh264enc name=encoder preset=low-latency-hq rc-mode=cbr bitrate="@;
    let element = "nvh264enc name=encoder "@;
    let at = head.len() - 9;
    assert(head == head.take(at) + " bitrate="@) by {
        reveal_strlit(" bitrate=");
        reveal_strlit("nvh264enc name=encoder preset=low-latency-hq rc-mode=cbr bitrate=");
        assert(head.skip(at) =~= " bitrate="@);
        assert(head =~= head.take(at) + " bitrate="@);
    }
    assert(starts_with(head, element)) by {
        reveal_strlit("nvh264enc name=encoder ");
        reveal_strlit("nvh264enc name=encoder preset=low-latency-hq rc-mode=cbr bitrate=");
        assert(head.subrange(0, 23) =~= element);
    }
    let (a, b, c, d) = (
        decimal(bitrate),
        " gop-size="@,
        decimal(ki),
        " bframes=0 zerolatency=true"@,
    );
    lemma_settings_stand(head.take(at), " bitrate="@, a, b, c, d);
    lemma_head_counts(head, a, b, c, d, element);
}

/// VA-API's encoder's part starts with its element, and says the bitrate and the distance between
/// keyframes under the element's own names for them.
pub proof fn law_vaapi_settings(bitrate: nat, ki: nat)
    ensures
        ({
            let text = encoder_text(EncoderType::Vaapi, bitrate, ki);
            &&& starts_with(text, "vaapih264enc name=encoder "@)
            &&& contains_text(
                text,
                " bitrate="@ + decimal(bitrate) + " keyframe-period="@ + decimal(ki),
            )
        }),
{
    let head = "vaapih264enc name=encoder rate-control=cbr bitrate="@;
    let element = "vaapih264enc name=encoder "@;
    let at = head.len() - 9;
    assert(head == head.take(at) + " bitrate="@) by {
        reveal_strlit(" bitrate=");
        reveal_strlit("vaapih264enc name=encoder rate-control=cbr bitrate=");
        assert(head.skip(at) =~= " bitrate="@);
        assert(head =~= head.take(at) + " bitrate="@);
    }
    assert(starts_with(head, element)) by {
        reveal_strlit("vaapih264enc name=encoder ");
        reveal_strlit("vaapih264enc name=encoder rate-control=cbr bitrate=");
        assert(head.subrange(0, 26) =~= element);
    }
    let (a, b, c) = (decimal(bitrate), " keyframe-period="@, decimal(ki));
    lemma_settings_stand(head.take(at), " bitrate="@, a, b, c, seq![]);
    lemma_head_counts(head, a, b, c, seq![], element);
}

/// What stands in a pipeline that is put together of these parts.
proof fn lemma_pipeline_parts(
    source: Seq<char>,
    space: Seq<char>,
    capture: Seq<char>,
    rate_name: Seq<char>,
    rate: Seq<char>,
    per_second: Seq<char>,
    scale: Seq<char>,
    link: Seq<char>,
    part: Seq<char>,
    sink: Seq<char>,
)
    ensures
        ({
            let text = source + (space + capture + rate_name) + rate + per_second + scale + link
                + part + sink;
            &&& starts_with(text, source + space)
            &&& contains_text(text, rate_name + rate + per_second)
            &&& contains_text(text, part)
            &&& contains_text(text, scale + link)
            &&& scale.len() == 0 ==> contains_text(
                text,
                rate_name + rate + (per_second + link) + part,
            )
        }),
{
    let text = source + (space + capture + rate_name) + rate + per_second + scale + link + part
        + sink;
    assert(text.subrange(0, (source + space).len() as int) =~= source + space);
    let start = source + space + capture;
    let end = scale + link + part + sink;
    lemma_part_stands(start, rate_name + rate + per_second, end);
    assert(text =~= start + (rate_name + rate + per_second) + end);
    let middle = source + (space + capture + rate_name) + rate + per_second;
    lemma_part_stands(middle + scale + link, part, sink);
    lemma_part_stands(middle, scale + link, part + sink);
    assert(text =~= middle + (scale + link) + (part + sink));
    if scale.len() == 0 {
        let plain = rate_name + rate + (per_second + link) + part;
        lemma_part_stands(start, plain, sink);
        assert(text =~= start + plain + sink);
    }
}

/// How the text between a source and its frame rate is put together.
proof fn lemma_capture_text()
    ensures
        exists|capture: Seq<char>|
            " use-damage=0 show-pointer=true ! video/x-raw,framerate="@ == #[trigger] (" "@
                + capture) + "framerate="@,
{
    let text = " use-damage=0 show-pointer=true ! video/x-raw,framerate="@;
    reveal_strlit(" ");
    reveal_strlit("framerate=");
    reveal_strlit(" use-damage=0 show-pointer=true ! video/x-raw,framerate=");
    let capture = text.subrange(1, text.len() - 10);
    assert(text =~= (" "@ + capture) + "framerate="@);
}

/// How texts that link the parts of a pipeline are put together.
proof fn lemma_link_texts()
    ensures
        "/1 ! "@ == "/1 "@ + "! "@,
        " ! "@ == " "@ + "! "@,
{
    reveal_strlit(" ");
    reveal_strlit("! ");
    reveal_strlit(" ! ");
    reveal_strlit("/1 ");
    reveal_strlit("/1 ! ");
    assert("/1 ! "@ =~= "/1 "@ + "! "@);
    assert(" ! "@ =~= " "@ + "! "@);
}

/// The pipeline of the display captures the display, at the configured frame rate, with the
/// encoder at the configured bitrate and keyframe interval, and scales the video exactly if it is
/// to have another size than the display, on either side.
pub proof fn law_pipeline_settings(config: Config, encoder: EncoderType)
    ensures
        ({
            let text = pipeline_text(config, encoder);
            let part = encoder_text(
                encoder,
                config.bitrate as nat,
                config.keyframe_interval as nat,
            );
            &&& starts_with(text, "ximagesrc display-name="@ + config.display@ + " "@)
            &&& contains_text(text, "framerate="@ + decimal(config.fps as nat) + "/1 "@)
            &&& contains_text(text, part)
            &&& config.stream_width() != config.width() || config.stream_height() != config.height()
                ==> contains_text(
                text,
                "! videoscale ! video/x-raw,width="@ + decimal(config.stream_width()) + ",height="@
                    + decimal(config.stream_height()) + " ! "@,
            )
            &&& config.stream_width() == config.width() && config.stream_height() == config.height()
                ==> contains_text(
                text,
                "framerate="@ + decimal(config.fps as nat) + "/1 ! "@ + part,
            )
        }),
{
    lemma_capture_text();
    lemma_link_texts();
    let capture = choose|capture: Seq<char>|
        " use-damage=0 show-pointer=true ! video/x-raw,framerate="@ == #[trigger] (" "@ + capture)
            + "framerate="@;
    let part = encoder_text(encoder, config.bitrate as nat, config.keyframe_interval as nat);
    let scale = scale_text(config);
    lemma_pipeline_parts(
        "ximagesrc display-name="@ + config.display@,
        " "@,
        capture,
        "framerate="@,
        decimal(config.fps as nat),
        "/1 "@,
        scale,
        "! "@,
        part,
        sink_text(),
    );
    if config.stream_width() != config.width() || config.stream_height() != config.height() {
        let scaled = "! videoscale ! video/x-raw,width="@ + decimal(config.stream_width())
            + ",height="@ + decimal(config.stream_height());
        assert(scale + "! "@ =~= scaled + (" "@ + "! "@));
    }
}

/// The pipeline of a window captures that window of the display, at the frame rate, bitrate and
/// keyframe interval given.
pub proof fn law_window_pipeline_settings(
    display: Seq<char>,
    window_id: nat,
    fps: nat,
    bitrate: nat,
    ki: nat,
    encoder: EncoderType,
)
    ensures
        ({
            let text = window_pipeline_text(display, window_id, fps, bitrate, ki, encoder);
            &&& starts_with(
                text,
                "ximagesrc display-name="@ + display + " xid="@ + decimal(window_id) + " "@,
            )
            &&& contains_text(
                text,
                "framerate="@ + decimal(fps) + "/1 ! "@ + encoder_text(encoder, bitrate, ki),
            )
        }),
{
    lemma_capture_text();
    lemma_link_texts();
    let capture = choose|capture: Seq<char>|
        " use-damage=0 show-pointer=true ! video/x-raw,framerate="@ == #[trigger] (" "@ + capture)
            + "framerate="@;
    let source = "ximagesrc display-name="@ + display + " xid="@ + decimal(window_id);
    let part = encoder_text(encoder, bitrate, ki);
    lemma_pipeline_parts(
        source,
        " "@,
        capture,
        "framerate="@,
        decimal(fps),
        "/1 "@,
        seq![],
        "! "@,
        part,
        sink_text(),
    );
    let head = source + (" "@ + capture + "framerate="@) + decimal(fps);
    assert(head + "/1 "@ + seq![] + "! "@ =~= head + ("/1 "@ + "! "@));
}

/// A display that could not be queried is left alone, and so is one that has the size that it is
/// thought to have; if either side is another, the size that was found is the one to go by.
pub proof fn law_external_change_noticed(
    actual: (u16, u16),
    size: (u16, u16),
    error: DisplayError,
)
    ensures
        actual.0 != size.0 || actual.1 != size.1 ==> external_size(Ok(actual), size) == Some(actual),
        actual.0 == size.0 && actual.1 == size.1 ==> external_size(Ok(actual), size) is None,
        external_size(Err(error), size) is None,
{
}

/// The size of the display in a configuration is its two numbers, each cut to sixteen bits.
pub proof fn law_display_size(config: Config)
    ensures
        display_size_of(config).0 == config.width() % 65536,
        display_size_of(config).1 == config.height() % 65536,
        config.width() < 65536 ==> display_size_of(config).0 == config.width(),
        config.height() < 65536 ==> display_size_of(config).1 == config.height(),
{
}

/// A restart fails only with the display or the pipeline: whatever else fails, it goes on.
pub proof fn law_optional_steps(step: PipelineStep)
    ensures
        step is RestartDisplay || step is StartPipeline <==> !step.optional(),
{
}

/// The numbers below the largest round up to even, the largest down, and none to zero.
pub proof fn law_even_size_spelled(half: u16)
    requires
        half < 32767,
    ensures
        even_size((2 * half + 2) as u16) == 2 * half + 2,
        even_size((2 * half + 1) as u16) == 2 * half + 2,
        even_size(0) == 2,
        even_size(65535) == 65534,
{
}

/// What is fixed in every pipeline: the whole source is captured at every frame, with the pointer;
/// each encoder is set up to lose no time; and the last thing is a byte stream of whole frames
/// into a sink that tells of each at once.
pub proof fn law_fixed_settings(
    config: Config,
    encoder: EncoderType,
    display: Seq<char>,
    window_id: nat,
    fps: nat,
    bitrate: nat,
    ki: nat,
)
    ensures
        ({
            let capture = " use-damage=0 show-pointer=true ! video/x-raw,framerate="@;
            let sink = " ! video/x-h264,stream-format=byte-stream,alignment=au ! appsink name=sink emit-signals=true sync=false"@;
            let whole = pipeline_text(config, encoder);
            let single = window_pipeline_text(display, window_id, fps, bitrate, ki, encoder);
            &&& contains_text(whole, capture) && contains_text(single, capture)
            &&& whole.skip(whole.len() - sink.len()) == sink
            &&& single.skip(single.len() - sink.len()) == sink
            &&& starts_with(
                encoder_text(EncoderType::X264, bitrate, ki),
                "videoconvert ! video/x-raw,format=I420 ! x264enc name=encoder tune=zerolatency speed-preset=ultrafast bitrate="@,
            )
            &&& starts_with(
                encoder_text(EncoderType::Nvenc, bitrate, ki),
                "nvh264enc name=encoder preset=low-latency-hq rc-mode=cbr bitrate="@,
            )
            &&& starts_with(
                encoder_text(EncoderType::Vaapi, bitrate, ki),
                "vaapih264enc name=encoder rate-control=cbr bitrate="@,
            )
        }),
{
    let capture = " use-damage=0 show-pointer=true ! video/x-raw,framerate="@;
    let part = encoder_text(encoder, config.bitrate as nat, config.keyframe_interval as nat);
    lemma_text_ends(
        "ximagesrc display-name="@ + config.display@,
        capture,
        decimal(config.fps as nat) + "/1 "@ + scale_text(config) + "! "@ + part,
        sink_text(),
    );
    let whole = pipeline_text(config, encoder);
    let rest = decimal(config.fps as nat) + "/1 "@ + scale_text(config) + "! "@ + part;
    assert(whole =~= "ximagesrc display-name="@ + config.display@ + capture + rest + sink_text());
    let single_part = encoder_text(encoder, bitrate, ki);
    let single_rest = decimal(fps) + "/1 ! "@ + single_part;
    let single = window_pipeline_text(display, window_id, fps, bitrate, ki, encoder);
    let source = "ximagesrc display-name="@ + display + " xid="@ + decimal(window_id);
    lemma_text_ends(source, capture, single_rest, sink_text());
    assert(single =~= source + capture + single_rest + sink_text());
    let x264 = "videoconvert ! video/x-raw,format=I420 ! x264enc name=encoder tune=zerolatency speed-preset=ultrafast bitrate="@;
    let nvenc = "nvh264enc name=encoder preset=low-latency-hq rc-mode=cbr bitrate="@;
    let vaapi = "vaapih264enc name=encoder rate-control=cbr bitrate="@;
    assert(x264.subrange(0, x264.len() as int) =~= x264);
    assert(nvenc.subrange(0, nvenc.len() as int) =~= nvenc);
    assert(vaapi.subrange(0, vaapi.len() as int) =~= vaapi);
    let (b, k) = (decimal(bitrate), decimal(ki));
    lemma_head_counts(x264, b, " key-int-max="@, k, " bframes=0"@, x264);
    lemma_head_counts(nvenc, b, " gop-size="@, k, " bframes=0 zerolatency=true"@, nvenc);
    lemma_head_counts(vaapi, b, " keyframe-period="@, k, seq![], vaapi);
}

/// A text holds its second part and ends with its last.
proof fn lemma_text_ends(a: Seq<char>, b: Seq<char>, c: Seq<char>, d: Seq<char>)
    ensures
        contains_text(a + b + c + d, b),
        (a + b + c + d).skip((a + b + c).len() as int) == d,
{
    lemma_part_stands(a, b, c + d);
    assert(a + b + (c + d) =~= a + b + c + d);
    assert((a + b + c + d).skip((a + b + c).len() as int) =~= d);
}

} // verus!
