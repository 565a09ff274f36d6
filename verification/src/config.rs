//! The server's configuration.

use crate::decimal::{decimal, lemma_decimal_round_trip, parse_u32_chars, parse_unsigned};
use crate::text::{
    chars_of, is_white_space, law_leading_char_trimmed, law_trimmed, lemma_split_at,
    lemma_split_whole, split, split_text, string_of, texts, trim, trim_chars, trim_start_char,
    trim_start_char_of,
};
use vstd::prelude::*;
use vstd::string::*;

verus! {

/// How the server was told to run.
#[derive(Debug)]
pub struct Config {
    /// X11 display to capture (e.g., ":99")
    pub display: String,
    /// Virtual display resolution
    pub resolution: String,
    /// Listen address for HTTPS/WebTransport
    pub listen: String,
    /// Video framerate
    pub fps: u32,
    /// H.264 bitrate in kbps
    pub bitrate: u32,
    /// Keyframe interval in frames
    pub keyframe_interval: u32,
    /// Path to TLS certificate PEM file (auto-generated if not provided)
    pub cert: Option<String>,
    /// Path to TLS private key PEM file (auto-generated if not provided)
    pub key: Option<String>,
    /// Path to web client static files directory
    pub client_dir: String,
    /// Skip starting Xvfb (if already running)
    pub no_xvfb: bool,
    /// Window manager command to run
    pub wm: String,
    /// JWT secret for session authentication (optional, disables auth if not set)
    pub jwt_secret: Option<String>,
    /// Shell command to run once the display is up, and again after each restart of the display
    pub post_start_command: Option<String>,
    /// Resolution of the video, if it differs from that of the display
    pub stream_resolution: Option<String>,
    /// Commands that clients may offer to launch, separated by commas
    pub launch_apps: String,
    /// H.264 bitrate of a single window's video, in kbps
    pub window_bitrate: u32,
    /// How many windows are captured at once, at most
    pub max_window_pipelines: u32,
}

impl Config {
    /// Whether everything but the list of apps is as by default.
    pub open spec fn is_default_but_apps(&self) -> bool {
        &&& self.display@ == ":99"@
        &&& self.resolution@ == "1920x1080"@
        &&& self.listen@ == "0.0.0.0:4443"@
        &&& self.fps == 60
        &&& self.bitrate == 6000
        &&& self.keyframe_interval == 60
        &&& self.cert is None
        &&& self.key is None
        &&& self.client_dir@ == "../client/dist/standalone"@
        &&& !self.no_xvfb
        &&& self.wm@ == "openbox"@
        &&& self.jwt_secret is None
        &&& self.post_start_command is None
        &&& self.stream_resolution is None
        &&& self.window_bitrate == 2000
        &&& self.max_window_pipelines == 8
    }
}

impl Default for Config {
    fn default() -> (config: Self)
        ensures
            config.is_default_but_apps(),
            config.launch_apps@
                == "xterm,firefox,chromium --no-sandbox --disable-gpu,l3afpad"@,
    {
        Config {
            display: ":99".to_owned(),
            resolution: "1920x1080".to_owned(),
            listen: "0.0.0.0:4443".to_owned(),
            fps: 60,
            bitrate: 6000,
            keyframe_interval: 60,
            cert: None,
            key: None,
            client_dir: "../client/dist/standalone".to_owned(),
            no_xvfb: false,
            wm: "openbox".to_owned(),
            jwt_secret: None,
            post_start_command: None,
            stream_resolution: None,
            launch_apps: "xterm,firefox,chromium --no-sandbox --disable-gpu,l3afpad".to_owned(),
            window_bitrate: 2000,
            max_window_pipelines: 8,
        }
    }
}

/// A copy of an optional text.
fn clone_text(text: &Option<String>) -> (copy: Option<String>)
    ensures
        copy == *text,
{
    match text {
        Some(t) => Some(t.clone()),
        None => None,
    }
}

impl Clone for Config {
    fn clone(&self) -> (copy: Self)
        ensures
            copy == *self,
    {
        Config {
            display: self.display.clone(),
            resolution: self.resolution.clone(),
            listen: self.listen.clone(),
            fps: self.fps,
            bitrate: self.bitrate,
            keyframe_interval: self.keyframe_interval,
            cert: clone_text(&self.cert),
            key: clone_text(&self.key),
            client_dir: self.client_dir.clone(),
            no_xvfb: self.no_xvfb,
            wm: self.wm.clone(),
            jwt_secret: clone_text(&self.jwt_secret),
            post_start_command: clone_text(&self.post_start_command),
            stream_resolution: clone_text(&self.stream_resolution),
            launch_apps: self.launch_apps.clone(),
            window_bitrate: self.window_bitrate,
            max_window_pipelines: self.max_window_pipelines,
        }
    }
}

/// The number in the piece of a resolution that stands at `index`, pieces being separated by `x`.
pub open spec fn dimension(resolution: Seq<char>, index: int) -> Option<nat> {
    let pieces = split(resolution, 'x');
    if index < pieces.len() {
        parse_unsigned(pieces[index], u32::MAX as nat)
    } else {
        None
    }
}

/// A number, or what stands in for it.
pub open spec fn or(n: Option<nat>, fallback: nat) -> nat {
    match n {
        Some(n) => n,
        None => fallback,
    }
}

/// The apps in a list separated by commas, without the white space around each; empty ones are
/// left out.
pub open spec fn app_list(pieces: Seq<Seq<char>>) -> Seq<Seq<char>>
    decreases pieces.len(),
{
    if pieces.len() == 0 {
        seq![]
    } else {
        let before = app_list(pieces.drop_last());
        let app = trim(pieces.last());
        if app.len() == 0 {
            before
        } else {
            before.push(app)
        }
    }
}

/// Reads one dimension of a resolution.
fn read_dimension(resolution: &str, index: usize) -> (n: Option<u32>)
    ensures
        match n {
            Some(n) => dimension(resolution@, index as int) == Some(n as nat),
            None => dimension(resolution@, index as int) is None,
        },
{
    let pieces = split_text(resolution, 'x');
    proof {
        assert(texts(pieces@).len() == pieces@.len());
    }
    if index < pieces.len() {
        proof {
            assert(texts(pieces@)[index as int] == pieces@[index as int]@);
        }
        let chars = chars_of(pieces[index].as_str());
        parse_u32_chars(chars.as_slice())
    } else {
        None
    }
}

impl Config {
    /// The width of the display.
    pub open spec fn width(&self) -> nat {
        or(dimension(self.resolution@, 0), 1920)
    }

    /// The height of the display.
    pub open spec fn height(&self) -> nat {
        or(dimension(self.resolution@, 1), 1080)
    }

    /// The width of the video.
    pub open spec fn stream_width(&self) -> nat {
        match self.stream_resolution {
            Some(resolution) => or(dimension(resolution@, 0), self.width()),
            None => self.width(),
        }
    }

    /// The height of the video.
    pub open spec fn stream_height(&self) -> nat {
        match self.stream_resolution {
            Some(resolution) => or(dimension(resolution@, 1), self.height()),
            None => self.height(),
        }
    }

    /// The number of the display: what follows its colons, 99 if that is not a number.
    pub open spec fn number(&self) -> nat {
        or(parse_unsigned(trim_start_char(self.display@, ':'), u32::MAX as nat), 99)
    }

    pub fn resolution_width(&self) -> (width: u32)
        ensures
            width == self.width(),
    {
        match read_dimension(self.resolution.as_str(), 0) {
            Some(n) => n,
            None => 1920,
        }
    }

    pub fn resolution_height(&self) -> (height: u32)
        ensures
            height == self.height(),
    {
        match read_dimension(self.resolution.as_str(), 1) {
            Some(n) => n,
            None => 1080,
        }
    }

    pub fn stream_resolution_width(&self) -> (width: u32)
        ensures
            width == self.stream_width(),
    {
        match &self.stream_resolution {
            Some(resolution) => match read_dimension(resolution.as_str(), 0) {
                Some(n) => n,
                None => self.resolution_width(),
            },
            None => self.resolution_width(),
        }
    }

    pub fn stream_resolution_height(&self) -> (height: u32)
        ensures
            height == self.stream_height(),
    {
        match &self.stream_resolution {
            Some(resolution) => match read_dimension(resolution.as_str(), 1) {
                Some(n) => n,
                None => self.resolution_height(),
            },
            None => self.resolution_height(),
        }
    }

    /// The number of the display.
    pub fn display_num(&self) -> (n: u32)
        ensures
            n == self.number(),
    {
        let digits = trim_start_char_of(self.display.as_str(), ':');
        let chars = chars_of(digits.as_str());
        match parse_u32_chars(chars.as_slice()) {
            Some(n) => n,
            None => 99,
        }
    }

    /// The apps that clients may offer to launch.
    pub fn launch_app_list(&self) -> (apps: Vec<String>)
        ensures
            texts(apps@) == app_list(split(self.launch_apps@, ',')),
    {
        let pieces = split_text(self.launch_apps.as_str(), ',');
        let ghost views = texts(pieces@);
        let mut apps: Vec<String> = Vec::new();
        let mut i: usize = 0;
        proof {
            assert(texts(apps@) =~= app_list(views.take(0)));
        }
        while i < pieces.len()
            invariant
                i <= pieces@.len(),
                views == texts(pieces@),
                texts(apps@) == app_list(views.take(i as int)),
            decreases pieces.len() - i,
        {
            let chars = chars_of(pieces[i].as_str());
            let app = trim_chars(chars.as_slice());
            let ghost before = texts(apps@);
            proof {
                assert(views.take(i + 1).drop_last() =~= views.take(i as int));
                assert(views.take(i + 1).last() == pieces@[i as int]@);
            }
            if app.len() > 0 {
                apps.push(string_of(app));
                proof {
                    assert(texts(apps@) =~= before.push(app@));
                }
            }
            i = i + 1;
        }
        proof {
            assert(views.take(i as int) =~= views);
        }
        apps
    }
}

/// The encoder that makes H.264 of the captured video.
#[derive(Debug, Clone, Copy, PartialEq, Eq, Structural)]
pub enum EncoderType {
    X264,
    Nvenc,
    Vaapi,
}

/// The H.264 encoder that is chosen, given which of the hardware ones can be made.
pub open spec fn chosen_encoder(nvenc: bool, vaapi: bool) -> EncoderType {
    if nvenc {
        EncoderType::Nvenc
    } else if vaapi {
        EncoderType::Vaapi
    } else {
        EncoderType::X264
    }
}

/// Choose the H.264 encoder, given which of the hardware ones can be made: NVIDIA's before
/// VA-API's before software.
pub fn detect_encoder(nvenc: bool, vaapi: bool) -> (encoder: EncoderType)
    ensures
        encoder == chosen_encoder(nvenc, vaapi),
        encoder == (if nvenc {
            EncoderType::Nvenc
        } else if vaapi {
            EncoderType::Vaapi
        } else {
            EncoderType::X264
        }),
{
    if nvenc {
        return EncoderType::Nvenc;
    }
    if vaapi {
        return EncoderType::Vaapi;
    }
    EncoderType::X264
}

/// The port of the HTTP server, which is the one after the WebTransport port.
pub fn http_port(listen_port: u16) -> (port: u16)
    requires
        listen_port < u16::MAX,
    ensures
        port == listen_port + 1,
{
    listen_port + 1
}

// ---------------------------------------------------------------------------
// Laws
// ---------------------------------------------------------------------------

/// In a resolution, what stands before the first `x` is the width and what stands between it and
/// the next is the height; 1920 and 1080 stand in for a number that is missing or is none.
pub proof fn law_display_size_read(config: Config, a: Seq<char>, b: Seq<char>, after: Seq<char>)
    requires
        !a.contains('x'),
        !b.contains('x'),
        ({
            ||| config.resolution@ == a + seq!['x'] + b
            ||| config.resolution@ == a + seq!['x'] + (b + seq!['x'] + after)
        }),
    ensures
        parse_unsigned(a, 0xffff_ffff) matches Some(n) ==> config.width() == n,
        parse_unsigned(a, 0xffff_ffff) is None ==> config.width() == 1920,
        parse_unsigned(b, 0xffff_ffff) matches Some(n) ==> config.height() == n,
        parse_unsigned(b, 0xffff_ffff) is None ==> config.height() == 1080,
{
    lemma_split_at(a, 'x', b);
    lemma_split_whole(b, 'x');
    lemma_split_at(a, 'x', b + seq!['x'] + after);
    lemma_split_at(b, 'x', after);
}

/// A resolution without an `x` is a width.
pub proof fn law_display_width_alone(config: Config)
    requires
        !config.resolution@.contains('x'),
    ensures
        parse_unsigned(config.resolution@, 0xffff_ffff) matches Some(n) ==> config.width() == n,
        parse_unsigned(config.resolution@, 0xffff_ffff) is None ==> config.width() == 1920,
        config.height() == 1080,
{
    lemma_split_whole(config.resolution@, 'x');
}

/// The video has the size of the display where it has none of its own; where it has, each number
/// that is missing or is none is that of the display.
pub proof fn law_video_size_read(config: Config, a: Seq<char>, b: Seq<char>)
    requires
        !a.contains('x'),
        !b.contains('x'),
    ensures
        config.stream_resolution is None ==> config.stream_width() == config.width()
            && config.stream_height() == config.height(),
        config.stream_resolution matches Some(resolution) && resolution@ == a + seq!['x'] + b ==> {
            &&& parse_unsigned(a, 0xffff_ffff) matches Some(n) ==> config.stream_width() == n
            &&& parse_unsigned(a, 0xffff_ffff) is None ==> config.stream_width() == config.width()
            &&& parse_unsigned(b, 0xffff_ffff) matches Some(n) ==> config.stream_height() == n
            &&& parse_unsigned(b, 0xffff_ffff) is None ==> config.stream_height()
                == config.height()
        },
        config.stream_resolution matches Some(resolution) && resolution@ == a ==> {
            &&& parse_unsigned(a, 0xffff_ffff) matches Some(n) ==> config.stream_width() == n
            &&& config.stream_height() == config.height()
        },
{
    lemma_split_at(a, 'x', b);
    lemma_split_whole(b, 'x');
    lemma_split_whole(a, 'x');
}

/// The number of a display is what its name says after any colons, and 99 where the name says
/// none.
pub proof fn law_display_number(config: Config, colons: nat, name: Seq<char>, n: nat)
    requires
        name.len() > 0 ==> name[0] != ':',
        config.display@ == Seq::new(colons, |i: int| ':') + name,
    ensures
        n <= 0xffff_ffff && name == decimal(n) ==> config.number() == n,
        parse_unsigned(name, 0xffff_ffff) is None ==> config.number() == 99,
{
    law_leading_char_trimmed(colons, ':', name);
    if n <= 0xffff_ffff {
        lemma_decimal_round_trip(n, 0xffff_ffff);
    }
}

/// The apps of two lists, one after the other, are those of the first and then those of the
/// second.
proof fn lemma_app_list_joins(a: Seq<Seq<char>>, b: Seq<Seq<char>>)
    ensures
        app_list(a + b) == app_list(a) + app_list(b),
    decreases b.len(),
{
    if b.len() == 0 {
        assert(a + b =~= a);
        assert(app_list(a) + app_list(b) =~= app_list(a));
    } else {
        assert((a + b).drop_last() =~= a + b.drop_last());
        lemma_app_list_joins(a, b.drop_last());
        assert(app_list(a + b) =~= app_list(a) + app_list(b));
    }
}

/// An app comes first in the list if it stands before the first comma, without the white space
/// around it, and the others follow in order; where there is nothing but white space, there is no
/// app.
pub proof fn law_apps_listed(before: Seq<char>, app: Seq<char>, after: Seq<char>, rest: Seq<char>)
    requires
        forall|i: int| 0 <= i < before.len() ==> is_white_space(before[i]),
        forall|i: int| 0 <= i < after.len() ==> is_white_space(after[i]),
        app.len() > 0 ==> !is_white_space(app[0]) && !is_white_space(app.last()),
        !app.contains(','),
    ensures
        app.len() > 0 ==> app_list(split(before + app + after + seq![','] + rest, ',')) == seq![app]
            + app_list(split(rest, ',')),
        app.len() == 0 ==> app_list(split(before + app + after + seq![','] + rest, ','))
            == app_list(split(rest, ',')),
        app.len() > 0 ==> app_list(split(before + app + after, ',')) == seq![app],
        app.len() == 0 ==> app_list(split(before + app + after, ',')).len() == 0,
{
    let piece = before + app + after;
    assert(!piece.contains(',')) by {
        if piece.contains(',') {
            let i = piece.index_of(',');
            if i < before.len() {
                assert(is_white_space(before[i]));
            } else if i < before.len() + app.len() {
                assert(app[i - before.len()] == ',');
            } else {
                assert(is_white_space(after[i - before.len() - app.len()]));
            }
        }
    }
    lemma_split_at(piece, ',', rest);
    lemma_split_whole(piece, ',');
    law_trimmed(before, app, after);
    reveal_with_fuel(app_list, 2);
    assert(seq![piece].drop_last() =~= Seq::<Seq<char>>::empty());
    assert(app_list(Seq::<Seq<char>>::empty()) =~= Seq::<Seq<char>>::empty());
    if app.len() > 0 {
        assert(app_list(seq![piece]) =~= seq![app]);
    } else {
        assert(app_list(seq![piece]) =~= Seq::<Seq<char>>::empty());
    }
    lemma_app_list_joins(seq![piece], split(rest, ','));
    assert(Seq::<Seq<char>>::empty() + app_list(split(rest, ',')) =~= app_list(split(rest, ',')));
}

/// By default the display is number 99 at 1920 by 1080, and the video has its size, with a
/// keyframe every second.
pub proof fn law_defaults(config: Config)
    requires
        config.is_default_but_apps(),
    ensures
        config.number() == 99,
        config.width() == 1920 && config.height() == 1080,
        config.stream_width() == 1920 && config.stream_height() == 1080,
        config.fps == 60 && config.keyframe_interval == config.fps,
        config.bitrate == 3 * config.window_bitrate,
        config.jwt_secret is None && config.cert is None && config.key is None,
{
    reveal_strlit(":99");
    reveal_strlit("1920x1080");
    let w = seq!['1', '9', '2', '0'];
    let h = seq!['1', '0', '8', '0'];
    assert(config.resolution@ =~= w + seq!['x'] + h);
    lemma_split_at(w, 'x', h);
    lemma_split_whole(h, 'x');
    reveal_with_fuel(decimal, 5);
    assert(decimal(1920) =~= w);
    assert(decimal(1080) =~= h);
    assert(decimal(99) =~= seq!['9', '9']);
    lemma_decimal_round_trip(1920, 0xffff_ffff);
    lemma_decimal_round_trip(1080, 0xffff_ffff);
    assert(config.display@ =~= Seq::new(1, |i: int| ':') + decimal(99));
    law_display_number(config, 1, decimal(99), 99);
}

/// A hardware encoder is chosen wherever one can be made, NVIDIA's wherever it can, and none that
/// cannot.
pub proof fn law_encoder_choice(nvenc: bool, vaapi: bool)
    ensures
        chosen_encoder(nvenc, vaapi) == EncoderType::X264 <==> !nvenc && !vaapi,
        nvenc ==> chosen_encoder(nvenc, vaapi) == EncoderType::Nvenc,
        chosen_encoder(nvenc, vaapi) == EncoderType::Nvenc ==> nvenc,
        chosen_encoder(nvenc, vaapi) == EncoderType::Vaapi ==> vaapi,
{
}

} // verus!
