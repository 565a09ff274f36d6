//! The virtual display: the command lines that run it, and what its tools print.

use crate::config::Config;
use crate::decimal::{
    decimal, is_digit, is_i32_chars, law_signed_numbers_read, lemma_decimal_lacks,
    lemma_decimal_round_trip, lemma_decimal_spells, parse_i32, parse_u16_chars, parse_unsigned,
    push_decimal,
};
use crate::text::{
    chars_of, contains_chars, contains_text, first_word, first_word_of, is_white_space,
    law_first_word, law_leading_char_trimmed, law_trimmed, lemma_split_at, lemma_split_whole, lines, lines_of, lossy_utf8, split, split_text,
    stands_at_chars, starts_with, string_of, text_from_utf8_lossy, texts, trim, trim_chars,
    trim_start, trim_start_char, trim_start_char_of, word_len,
};
use vstd::prelude::*;
use vstd::slice::slice_subrange;
use vstd::string::*;

verus! {

// ---------------------------------------------------------------------------
// The size of the display
// ---------------------------------------------------------------------------

/// Why the size of a display is not known.
#[derive(Debug, Clone, Copy, PartialEq, Eq, Structural)]
pub enum DisplayError {
    /// The width that was printed is not a number of 16 bits.
    InvalidWidth,
    /// The height that was printed is not a number of 16 bits.
    InvalidHeight,
    /// No size was printed.
    NotFound,
}

impl DisplayError {
    /// The error in words.
    pub fn message(&self) -> (text: &'static str)
        ensures
            text@ == (match *self {
                DisplayError::InvalidWidth => "Invalid width from xdpyinfo"@,
                DisplayError::InvalidHeight => "Invalid height from xdpyinfo"@,
                DisplayError::NotFound => "Could not parse display resolution from xdpyinfo output"@,
            }),
    {
        match *self {
            DisplayError::InvalidWidth => "Invalid width from xdpyinfo",
            DisplayError::InvalidHeight => "Invalid height from xdpyinfo",
            DisplayError::NotFound => "Could not parse display resolution from xdpyinfo output",
        }
    }
}

/// A size that was read, or why it could not be.
pub open spec fn size_in_pieces(pieces: Seq<Seq<char>>) -> Result<(u16, u16), DisplayError> {
    match parse_unsigned(pieces[0], u16::MAX as nat) {
        Some(width) => match parse_unsigned(pieces[1], u16::MAX as nat) {
            Some(height) => Ok((width as u16, height as u16)),
            None => Err(DisplayError::InvalidHeight),
        },
        None => Err(DisplayError::InvalidWidth),
    }
}

/// The size that a line of `xdpyinfo` output gives, if it gives one: the line starts with
/// `dimensions:`, and the first word after that holds an `x`.
pub open spec fn size_in_line(line: Seq<char>) -> Option<Result<(u16, u16), DisplayError>> {
    let trimmed = trim(line);
    if !starts_with(trimmed, "dimensions:"@) {
        None
    } else {
        match first_word(trimmed.skip("dimensions:"@.len() as int)) {
            Some(word) => if split(word, 'x').len() >= 2 {
                Some(size_in_pieces(split(word, 'x')))
            } else {
                None
            },
            None => None,
        }
    }
}

/// The size that the first line gives that gives one.
pub open spec fn size_in_lines(list: Seq<Seq<char>>) -> Result<(u16, u16), DisplayError>
    decreases list.len(),
{
    if list.len() == 0 {
        Err(DisplayError::NotFound)
    } else {
        match size_in_line(list[0]) {
            Some(size) => size,
            None => size_in_lines(list.drop_first()),
        }
    }
}

/// Reads the size in one line.
fn parse_size_line(line: &str) -> (size: Option<Result<(u16, u16), DisplayError>>)
    ensures
        size == size_in_line(line@),
{
    let chars = chars_of(line);
    let prefix = chars_of("dimensions:");
    let trimmed = trim_chars(chars.as_slice());
    if !stands_at_chars(trimmed, prefix.as_slice(), 0) {
        return None;
    }
    let rest = slice_subrange(trimmed, prefix.len(), trimmed.len());
    proof {
        assert(rest@ =~= trimmed@.skip(prefix@.len() as int));
    }
    match first_word_of(rest) {
        Some(word) => {
            let word_text = string_of(word);
            let pieces = split_text(word_text.as_str(), 'x');
            let ghost views = texts(pieces@);
            proof {
                assert(views.len() == pieces@.len());
            }
            if pieces.len() < 2 {
                return None;
            }
            proof {
                assert(views[0] == pieces@[0]@);
                assert(views[1] == pieces@[1]@);
            }
            let w = chars_of(pieces[0].as_str());
            let h = chars_of(pieces[1].as_str());
            match parse_u16_chars(w.as_slice()) {
                Some(width) => match parse_u16_chars(h.as_slice()) {
                    Some(height) => Some(Ok((width, height))),
                    None => Some(Err(DisplayError::InvalidHeight)),
                },
                None => Some(Err(DisplayError::InvalidWidth)),
            }
        },
        None => None,
    }
}

/// Reads the size of the display in a text that `xdpyinfo` printed.
pub fn parse_display_resolution(text: &str) -> (size: Result<(u16, u16), DisplayError>)
    ensures
        size == size_in_lines(lines(text@)),
{
    let list = lines_of(text);
    let ghost views = texts(list@);
    let mut i: usize = 0;
    proof {
        assert(views.skip(0) =~= views);
    }
    while i < list.len()
        invariant
            i <= list@.len(),
            views == texts(list@),
            views == lines(text@),
            size_in_lines(views) == size_in_lines(views.skip(i as int)),
        decreases list.len() - i,
    {
        proof {
            assert(views.skip(i as int)[0] == list@[i as int]@);
            assert(views.skip(i as int).drop_first() =~= views.skip(i + 1));
        }
        if let Some(size) = parse_size_line(list[i].as_str()) {
            return size;
        }
        i = i + 1;
    }
    Err(DisplayError::NotFound)
}

/// Query the resolution of an X11 display: reads what `xdpyinfo` printed for it.
///
/// Returns `(width, height)` or an error if none was printed.
pub fn query_display_resolution(stdout: &[u8]) -> (size: Result<(u16, u16), DisplayError>)
    ensures
        size == size_in_lines(lines(lossy_utf8(stdout@))),
{
    let text = text_from_utf8_lossy(stdout);
    parse_display_resolution(text.as_str())
}

// ---------------------------------------------------------------------------
// Running the display
// ---------------------------------------------------------------------------

/// The process in a line of `pgrep -a` output, if the line speaks of the display: its first word,
/// which must be a number.
pub open spec fn process_in_line(line: Seq<char>, display: Seq<char>) -> Option<Seq<char>> {
    if !contains_text(line, display) {
        None
    } else {
        match first_word(line) {
            Some(word) => if parse_i32(word) is Some {
                Some(word)
            } else {
                None
            },
            None => None,
        }
    }
}

/// The processes in the lines of `pgrep -a` output that speak of the display.
pub open spec fn processes_in_lines(list: Seq<Seq<char>>, display: Seq<char>) -> Seq<Seq<char>>
    decreases list.len(),
{
    if list.len() == 0 {
        seq![]
    } else {
        let before = processes_in_lines(list.drop_last(), display);
        match process_in_line(list.last(), display) {
            Some(pid) => before.push(pid),
            None => before,
        }
    }
}

/// Reads the process in one line.
fn parse_process_line(line: &str, display: &str) -> (pid: Option<String>)
    ensures
        match pid {
            Some(p) => process_in_line(line@, display@) == Some(p@),
            None => process_in_line(line@, display@) is None,
        },
{
    let chars = chars_of(line);
    let pattern = chars_of(display);
    if !contains_chars(chars.as_slice(), pattern.as_slice()) {
        return None;
    }
    match first_word_of(chars.as_slice()) {
        Some(word) => if is_i32_chars(word) {
            Some(string_of(word))
        } else {
            None
        },
        None => None,
    }
}

/// The processes that run a display, from a text that `pgrep -a` printed.
pub fn display_processes_in(text: &str, display: &str) -> (pids: Vec<String>)
    ensures
        texts(pids@) == processes_in_lines(lines(text@), display@),
{
    let list = lines_of(text);
    let ghost views = texts(list@);
    let mut pids: Vec<String> = Vec::new();
    let mut i: usize = 0;
    proof {
        assert(texts(pids@) =~= processes_in_lines(views.take(0), display@));
    }
    while i < list.len()
        invariant
            i <= list@.len(),
            views == texts(list@),
            views == lines(text@),
            texts(pids@) == processes_in_lines(views.take(i as int), display@),
        decreases list.len() - i,
    {
        let ghost before = texts(pids@);
        proof {
            assert(views.take(i + 1).drop_last() =~= views.take(i as int));
            assert(views.take(i + 1).last() == list@[i as int]@);
        }
        if let Some(pid) = parse_process_line(list[i].as_str(), display) {
            pids.push(pid);
            proof {
                assert(texts(pids@) =~= before.push(pid@));
            }
        }
        i = i + 1;
    }
    proof {
        assert(views.take(i as int) =~= views);
    }
    pids
}

/// The processes that run a display, from what `pgrep -a -x Xvfb` printed.
pub fn display_processes(stdout: &[u8], display: &str) -> (pids: Vec<String>)
    ensures
        texts(pids@) == processes_in_lines(lines(lossy_utf8(stdout@)), display@),
{
    let text = text_from_utf8_lossy(stdout);
    display_processes_in(text.as_str(), display)
}

/// A resolution in writing.
pub open spec fn resolution_text(width: nat, height: nat) -> Seq<char> {
    decimal(width) + "x"@ + decimal(height)
}

/// Writes a resolution.
pub fn write_resolution(width: u16, height: u16) -> (text: String)
    ensures
        text@ == resolution_text(width as nat, height as nat),
{
    let mut text = String::new();
    push_decimal(&mut text, width as u32);
    text.append("x");
    push_decimal(&mut text, height as u32);
    proof {
        assert(text@ =~= resolution_text(width as nat, height as nat));
    }
    text
}

/// The lock file of the display with this number.
pub open spec fn lock_file_of(number: Seq<char>) -> Seq<char> {
    "/tmp/.X"@ + number + "-lock"@
}

/// The lock file that a display with this number leaves behind.
pub fn stale_lock_file(display_num: u32) -> (path: String)
    ensures
        path@ == lock_file_of(decimal(display_num as nat)),
{
    let mut path = "/tmp/.X".to_owned();
    push_decimal(&mut path, display_num);
    path.append("-lock");
    path
}

/// The lock file of a display, from its name: what follows the colons is its number.
pub fn display_lock_file(display: &str) -> (path: String)
    ensures
        path@ == lock_file_of(trim_start_char(display@, ':')),
{
    let number = trim_start_char_of(display, ':');
    let mut path = "/tmp/.X".to_owned();
    path.append(number.as_str());
    path.append("-lock");
    path
}

/// The arguments of `Xvfb`: one screen at the given resolution and 24 bits per pixel, without
/// access control, with backing store so that obscured windows keep their pixels, with RandR and
/// with Composite.
pub open spec fn xvfb_args_of(display: Seq<char>, resolution: Seq<char>) -> Seq<Seq<char>> {
    seq![
        display,
        "-screen"@,
        "0"@,
        resolution + "x24"@,
        "-ac"@,
        "+bs"@,
        "+extension"@,
        "RANDR"@,
        "+extension"@,
        "Composite"@,
    ]
}

/// The arguments to start `Xvfb` with.
pub fn xvfb_args(display: &str, resolution: &str) -> (args: Vec<String>)
    ensures
        texts(args@) == xvfb_args_of(display@, resolution@),
{
    let mut screen = resolution.to_owned();
    screen.append("x24");
    let mut args: Vec<String> = Vec::new();
    args.push(display.to_owned());
    args.push("-screen".to_owned());
    args.push("0".to_owned());
    args.push(screen);
    args.push("-ac".to_owned());
    args.push("+bs".to_owned());
    args.push("+extension".to_owned());
    args.push("RANDR".to_owned());
    args.push("+extension".to_owned());
    args.push("Composite".to_owned());
    proof {
        assert(texts(args@) =~= xvfb_args_of(display@, resolution@));
    }
    args
}

/// The shell command that starts the window manager on a display that was restarted.
pub fn window_manager_command(display: &str) -> (command: String)
    ensures
        command@ == "DISPLAY="@ + display@ + " openbox &"@,
{
    let mut command = "DISPLAY=".to_owned();
    command.append(display);
    command.append(" openbox &");
    command
}

// ---------------------------------------------------------------------------
// Restarting the display
// ---------------------------------------------------------------------------

/// One step in bringing up a display.
#[derive(Debug)]
pub enum DisplayStep {
    /// Send `TERM` to a process.
    Terminate { pid: String },
    /// Wait.
    Pause { millis: u64 },
    /// Remove a file, if it is there.
    RemoveFile { path: String },
    /// Start `Xvfb`. If that fails, the steps that follow are not taken.
    StartXvfb { args: Vec<String> },
    /// Start a shell command in the background.
    Shell { command: String },
}

/// What a [`DisplayStep`] says.
pub ghost enum DisplayStepView {
    Terminate { pid: Seq<char> },
    Pause { millis: u64 },
    RemoveFile { path: Seq<char> },
    StartXvfb { args: Seq<Seq<char>> },
    Shell { command: Seq<char> },
}

impl View for DisplayStep {
    type V = DisplayStepView;

    open spec fn view(&self) -> DisplayStepView {
        match *self {
            DisplayStep::Terminate { pid } => DisplayStepView::Terminate { pid: pid@ },
            DisplayStep::Pause { millis } => DisplayStepView::Pause { millis },
            DisplayStep::RemoveFile { path } => DisplayStepView::RemoveFile { path: path@ },
            DisplayStep::StartXvfb { args } => DisplayStepView::StartXvfb { args: texts(args@) },
            DisplayStep::Shell { command } => DisplayStepView::Shell { command: command@ },
        }
    }
}

/// What a list of steps says.
pub open spec fn display_step_views(steps: Seq<DisplayStep>) -> Seq<DisplayStepView> {
    steps.map_values(|s: DisplayStep| s@)
}

/// The steps that end the given processes.
pub open spec fn terminations(pids: Seq<Seq<char>>) -> Seq<DisplayStepView> {
    pids.map_values(|pid: Seq<char>| DisplayStepView::Terminate { pid })
}

/// The steps that restart a display at a resolution, given the processes that run it now.
pub open spec fn restart_steps(
    display: Seq<char>,
    width: nat,
    height: nat,
    pids: Seq<Seq<char>>,
) -> Seq<DisplayStepView> {
    terminations(pids) + seq![
        DisplayStepView::Pause { millis: 200 },
        DisplayStepView::RemoveFile { path: lock_file_of(trim_start_char(display, ':')) },
        DisplayStepView::StartXvfb {
            args: xvfb_args_of(display, resolution_text(width, height)),
        },
        DisplayStepView::Pause { millis: 300 },
        DisplayStepView::Shell { command: "DISPLAY="@ + display + " openbox &"@ },
        DisplayStepView::Pause { millis: 100 },
    ]
}

/// Resize the Xvfb display by restarting it at the new resolution.
///
/// Xvfb has limited RANDR support and cannot add new modes dynamically. The reliable approach is
/// to kill the current Xvfb and start a fresh one at the requested resolution with BackingStore
/// and RANDR enabled. `running` holds the processes that [`display_processes`] found.
pub fn resize_display(display: &str, width: u16, height: u16, running: Vec<String>) -> (steps: Vec<
    DisplayStep,
>)
    ensures
        display_step_views(steps@) == restart_steps(
            display@,
            width as nat,
            height as nat,
            texts(running@),
        ),
{
    let mut steps: Vec<DisplayStep> = Vec::new();
    let mut i: usize = 0;
    while i < running.len()
        invariant
            i <= running@.len(),
            display_step_views(steps@) == terminations(texts(running@.take(i as int))),
        decreases running.len() - i,
    {
        let ghost before = display_step_views(steps@);
        steps.push(DisplayStep::Terminate { pid: running[i].clone() });
        proof {
            let pid = running@[i as int]@;
            assert(texts(running@.take(i + 1)) =~= texts(running@.take(i as int)).push(pid));
            assert(terminations(texts(running@.take(i + 1))) =~= before.push(
                DisplayStepView::Terminate { pid },
            ));
            assert(display_step_views(steps@) =~= before.push(DisplayStepView::Terminate { pid }));
        }
        i = i + 1;
    }
    proof {
        assert(running@.take(i as int) =~= running@);
    }
    let ghost killed = display_step_views(steps@);
    let resolution = write_resolution(width, height);
    steps.push(DisplayStep::Pause { millis: 200 });
    steps.push(DisplayStep::RemoveFile { path: display_lock_file(display) });
    steps.push(DisplayStep::StartXvfb { args: xvfb_args(display, resolution.as_str()) });
    steps.push(DisplayStep::Pause { millis: 300 });
    steps.push(DisplayStep::Shell { command: window_manager_command(display) });
    steps.push(DisplayStep::Pause { millis: 100 });
    proof {
        assert(display_step_views(steps@) =~= restart_steps(
            display@,
            width as nat,
            height as nat,
            texts(running@),
        ));
    }
    steps
}

/// The steps that start the display when the server starts: a lock file that an earlier run left
/// behind is removed first.
pub fn start_xvfb(config: &Config) -> (steps: Vec<DisplayStep>)
    ensures
        display_step_views(steps@) == seq![
            DisplayStepView::RemoveFile { path: lock_file_of(decimal(config.number())) },
            DisplayStepView::StartXvfb {
                args: xvfb_args_of(config.display@, config.resolution@),
            },
            DisplayStepView::Pause { millis: 300 },
        ],
{
    let mut steps: Vec<DisplayStep> = Vec::new();
    steps.push(DisplayStep::RemoveFile { path: stale_lock_file(config.display_num()) });
    steps.push(
        DisplayStep::StartXvfb {
            args: xvfb_args(config.display.as_str(), config.resolution.as_str()),
        },
    );
    steps.push(DisplayStep::Pause { millis: 300 });
    proof {
        assert(display_step_views(steps@) =~= seq![
            DisplayStepView::RemoveFile { path: lock_file_of(decimal(config.number())) },
            DisplayStepView::StartXvfb {
                args: xvfb_args_of(config.display@, config.resolution@),
            },
            DisplayStepView::Pause { millis: 300 },
        ]);
    }
    steps
}

// ---------------------------------------------------------------------------
// Laws
// ---------------------------------------------------------------------------

/// A resolution in writing splits into its two numbers.
pub proof fn lemma_resolution_splits(width: nat, height: nat)
    ensures
        split(resolution_text(width, height), 'x') == seq![decimal(width), decimal(height)],
{
    reveal_strlit("x");
    lemma_decimal_lacks(width, 'x');
    lemma_decimal_lacks(height, 'x');
    assert("x"@ =~= seq!['x']);
    lemma_split_at(decimal(width), 'x', decimal(height));
    lemma_split_whole(decimal(height), 'x');
    assert(seq![decimal(width)] + seq![decimal(height)] =~= seq![decimal(width), decimal(height)]);
}

/// A word is found behind any white space and in front of more.
proof fn lemma_first_word(white: Seq<char>, word: Seq<char>, after: Seq<char>)
    requires
        forall|i: int| 0 <= i < white.len() ==> is_white_space(white[i]),
        word.len() > 0,
        forall|i: int| 0 <= i < word.len() ==> !is_white_space(word[i]),
        after.len() == 0 || is_white_space(after[0]),
    ensures
        first_word(white + word + after) == Some(word),
    decreases white.len(),
{
    let s = white + word + after;
    if white.len() > 0 {
        let rest = white.drop_first();
        assert(s.drop_first() =~= rest + word + after);
        assert(s[0] == white[0]);
        lemma_first_word(rest, word, after);
    } else {
        assert(s =~= word + after);
        assert(s[0] == word[0]);
        lemma_word_len(word, after);
        assert(s.take(word.len() as int) =~= word);
    }
}

/// A word ends where white space begins.
proof fn lemma_word_len(word: Seq<char>, after: Seq<char>)
    requires
        forall|i: int| 0 <= i < word.len() ==> !is_white_space(word[i]),
        after.len() == 0 || is_white_space(after[0]),
    ensures
        word_len(word + after) == word.len(),
    decreases word.len(),
{
    if word.len() > 0 {
        assert((word + after).drop_first() =~= word.drop_first() + after);
        assert((word + after)[0] == word[0]);
        lemma_word_len(word.drop_first(), after);
    } else {
        assert(word + after =~= after);
    }
}

/// The size in a line of the form that `xdpyinfo` prints is read back: `dimensions:`, white
/// space, the resolution, a space and the unit.
pub proof fn law_printed_size_is_read(white: Seq<char>, width: u16, height: u16)
    requires
        forall|i: int| 0 <= i < white.len() ==> is_white_space(white[i]),
    ensures
        size_in_line(
            white + "dimensions:"@ + white + resolution_text(width as nat, height as nat)
                + " pixels"@,
        ) == Some(Ok::<(u16, u16), DisplayError>((width, height))),
{
    reveal_strlit("dimensions:");
    reveal_strlit(" pixels");
    reveal_strlit("x");
    let word = resolution_text(width as nat, height as nat);
    let tail = white + word + " pixels"@;
    let body = "dimensions:"@ + tail;
    let line = white + "dimensions:"@ + white + word + " pixels"@;
    assert(line =~= white + body);
    lemma_trim_start(white, body);
    assert(body.last() == 's');
    assert(trim(line) == body);
    assert(body.skip(11) =~= tail);
    assert(body.take(11) =~= "dimensions:"@);
    lemma_decimal_spells(width as nat);
    lemma_decimal_spells(height as nat);
    assert forall|i: int| 0 <= i < word.len() implies !is_white_space(word[i]) by {
        let w = decimal(width as nat);
        let h = decimal(height as nat);
        if i < w.len() {
            assert(word[i] == w[i]);
            assert(is_digit(w[i]));
        } else if i == w.len() {
            assert(word[i] == 'x');
        } else {
            assert(word[i] == h[i - w.len() - 1]);
            assert(is_digit(h[i - w.len() - 1]));
        }
    }
    lemma_first_word(white, word, " pixels"@);
    lemma_resolution_splits(width as nat, height as nat);
    lemma_decimal_round_trip(width as nat, u16::MAX as nat);
    lemma_decimal_round_trip(height as nat, u16::MAX as nat);
}

/// White space in front of a text that does not start with it is trimmed away.
proof fn lemma_trim_start(white: Seq<char>, body: Seq<char>)
    requires
        forall|i: int| 0 <= i < white.len() ==> is_white_space(white[i]),
        body.len() > 0,
        !is_white_space(body[0]),
    ensures
        trim_start(white + body) == body,
    decreases white.len(),
{
    if white.len() > 0 {
        assert((white + body)[0] == white[0]);
        assert((white + body).drop_first() =~= white.drop_first() + body);
        lemma_trim_start(white.drop_first(), body);
    } else {
        assert(white + body =~= body);
    }
}

/// What comes of a line that starts, but for white space, with `dimensions:` and has a word with
/// an `x` next: the numbers around the `x`, or which of them is none of sixteen bits.
pub proof fn law_size_line(white: Seq<char>, a: Seq<char>, b: Seq<char>, after: Seq<char>)
    requires
        forall|i: int| 0 <= i < white.len() ==> is_white_space(white[i]),
        forall|i: int| 0 <= i < a.len() ==> !is_white_space(a[i]),
        forall|i: int| 0 <= i < b.len() ==> !is_white_space(b[i]),
        !a.contains('x'),
        !b.contains('x'),
        after.len() > 0 ==> is_white_space(after[0]) && !is_white_space(after.last()),
    ensures
        ({
            let line = white + "dimensions:"@ + white + a + seq!['x'] + b + after;
            let width = parse_unsigned(a, 65535);
            let height = parse_unsigned(b, 65535);
            &&& width is Some && height is Some ==> size_in_line(line) == Some(
                Ok::<(u16, u16), DisplayError>((width->0 as u16, height->0 as u16)),
            )
            &&& width is None ==> size_in_line(line) == Some(
                Err::<(u16, u16), DisplayError>(DisplayError::InvalidWidth),
            )
            &&& width is Some && height is None ==> size_in_line(line) == Some(
                Err::<(u16, u16), DisplayError>(DisplayError::InvalidHeight),
            )
        }),
{
    reveal_strlit("dimensions:");
    let word = a + seq!['x'] + b;
    let tail = white + word + after;
    let body = "dimensions:"@ + tail;
    let line = white + "dimensions:"@ + white + a + seq!['x'] + b + after;
    assert(line =~= white + body + seq![]);
    assert forall|i: int| 0 <= i < word.len() implies !is_white_space(word[i]) by {
        if i < a.len() {
            assert(word[i] == a[i]);
        } else if i > a.len() {
            assert(word[i] == b[i - a.len() - 1]);
        }
    }
    assert(!is_white_space(body[0]));
    if after.len() > 0 {
        assert(body.last() == after.last());
    } else {
        assert(body.last() == word.last());
    }
    law_trimmed(white, body, seq![]);
    assert(body.skip(11) =~= tail);
    assert(body.take(11) =~= "dimensions:"@);
    law_first_word(white, word, after);
    lemma_split_at(a, 'x', b);
    lemma_split_whole(b, 'x');
    assert(seq![a] + seq![b] =~= seq![a, b]);
}

/// The size is that of the first line that gives one; lines that start with anything else than
/// `dimensions:` give none, and where no line does, the size is not found.
pub proof fn law_first_size_counts(before: Seq<Seq<char>>, line: Seq<char>, after: Seq<Seq<char>>)
    requires
        forall|i: int|
            0 <= i < before.len() ==> !starts_with(#[trigger] trim(before[i]), "dimensions:"@),
    ensures
        size_in_lines(before) == Err::<(u16, u16), DisplayError>(DisplayError::NotFound),
        size_in_line(line) matches Some(size) ==> size_in_lines(before + seq![line] + after) == size,
        size_in_line(line) is None ==> size_in_lines(before + seq![line] + after) == size_in_lines(
            after,
        ),
    decreases before.len(),
{
    let all = before + seq![line] + after;
    if before.len() > 0 {
        let fewer = before.drop_first();
        assert(!starts_with(trim(before[0]), "dimensions:"@));
        assert forall|i: int| 0 <= i < fewer.len() implies !starts_with(
            #[trigger] trim(fewer[i]),
            "dimensions:"@,
        ) by {
            assert(fewer[i] == before[i + 1]);
        }
        law_first_size_counts(fewer, line, after);
        assert(all[0] == before[0]);
        assert(all.drop_first() =~= fewer + seq![line] + after);
    } else {
        assert(all[0] == line);
        assert(all.drop_first() =~= after);
    }
}

/// The processes of two runs of lines are those of the first and then those of the second.
pub proof fn law_processes_in_order(
    a: Seq<Seq<char>>,
    b: Seq<Seq<char>>,
    display: Seq<char>,
)
    ensures
        processes_in_lines(a + b, display) == processes_in_lines(a, display) + processes_in_lines(
            b,
            display,
        ),
    decreases b.len(),
{
    if b.len() == 0 {
        assert(a + b =~= a);
        assert(processes_in_lines(a, display) + processes_in_lines(b, display)
            =~= processes_in_lines(a, display));
    } else {
        assert((a + b).drop_last() =~= a + b.drop_last());
        law_processes_in_order(a, b.drop_last(), display);
        assert(processes_in_lines(a + b, display) =~= processes_in_lines(a, display)
            + processes_in_lines(b, display));
    }
}

/// A line gives the number that it starts with if the name of the display occurs in it, and gives
/// nothing if the name does not occur in it or its first word is no number.
pub proof fn law_process_found(pid: nat, after: Seq<char>, display: Seq<char>, line: Seq<char>)
    requires
        after.len() == 0 || is_white_space(after[0]),
    ensures
        pid <= 0x7fff_ffff && contains_text(decimal(pid) + after, display) ==> processes_in_lines(
            seq![decimal(pid) + after],
            display,
        ) == seq![decimal(pid)],
        !contains_text(line, display) ==> processes_in_lines(seq![line], display).len() == 0,
        first_word(line) matches Some(word) && parse_i32(word) is None ==> processes_in_lines(
            seq![line],
            display,
        ).len() == 0,
        first_word(line) is None ==> processes_in_lines(seq![line], display).len() == 0,
{
    lemma_decimal_spells(pid);
    let word = decimal(pid);
    assert forall|i: int| 0 <= i < word.len() implies !is_white_space(word[i]) by {
        assert(is_digit(word[i]));
    }
    law_first_word(seq![], word, after);
    assert(Seq::<char>::empty() + word + after =~= word + after);
    law_signed_numbers_read(pid);
    reveal_with_fuel(processes_in_lines, 2);
    assert(seq![word + after].drop_last() =~= Seq::<Seq<char>>::empty());
    assert(seq![line].drop_last() =~= Seq::<Seq<char>>::empty());
    assert(Seq::<Seq<char>>::empty().push(word) =~= seq![word]);
}

/// A display is restarted in this order: every process that runs it is ended, then its lock file
/// is removed, then one server is started on it, and the window manager after that.
pub proof fn law_restart_order(display: Seq<char>, width: nat, height: nat, pids: Seq<Seq<char>>)
    ensures
        ({
            let steps = restart_steps(display, width, height, pids);
            let n = pids.len() as int;
            &&& steps.len() == n + 6
            &&& forall|i: int|
                0 <= i < n ==> #[trigger] steps[i] == (DisplayStepView::Terminate { pid: pids[i] })
            &&& forall|i: int| n <= i < n + 6 ==> !((#[trigger] steps[i]) is Terminate)
            &&& forall|i: int| 0 <= i < n + 6 ==> ((#[trigger] steps[i]) is RemoveFile <==> i == n + 1)
            &&& forall|i: int| 0 <= i < n + 6 ==> ((#[trigger] steps[i]) is StartXvfb <==> i == n + 2)
            &&& forall|i: int| 0 <= i < n + 6 ==> ((#[trigger] steps[i]) is Shell <==> i == n + 4)
            &&& steps[n] == (DisplayStepView::Pause { millis: 200 })
            &&& steps[n + 3] == (DisplayStepView::Pause { millis: 300 })
            &&& steps[n + 5] == (DisplayStepView::Pause { millis: 100 })
        }),
{
}

/// The server that a restart starts runs the display that was asked for, at the size that was
/// asked for and 24 bits per pixel; the lock file that is removed is that of the display's number,
/// and the window manager runs on the display.
pub proof fn law_restart_at_size(colons: nat, name: Seq<char>, width: nat, height: nat)
    requires
        name.len() > 0 ==> name[0] != ':',
    ensures
        ({
            let display = Seq::new(colons, |i: int| ':') + name;
            let steps = restart_steps(display, width, height, seq![]);
            let args = steps[2]->args;
            &&& steps[1]->path == "/tmp/.X"@ + name + "-lock"@
            &&& args[0] == display
            &&& args[1] == "-screen"@ && args[2] == "0"@
            &&& args[3] == decimal(width) + "x"@ + decimal(height) + "x24"@
            &&& args.contains("-ac"@) && args.contains("+bs"@)
            &&& exists|i: int|
                0 <= i < args.len() - 1 && #[trigger] args[i] == "+extension"@ && args[i + 1]
                    == "RANDR"@
            &&& exists|i: int|
                0 <= i < args.len() - 1 && #[trigger] args[i] == "+extension"@ && args[i + 1]
                    == "Composite"@
            &&& steps[4]->command == "DISPLAY="@ + display + " openbox &"@
        }),
{
    let display = Seq::new(colons, |i: int| ':') + name;
    law_leading_char_trimmed(colons, ':', name);
    let steps = restart_steps(display, width, height, seq![]);
    let args = steps[2]->args;
    assert(args[4] == "-ac"@ && args[5] == "+bs"@);
    assert(args[6] == "+extension"@ && args[7] == "RANDR"@);
    assert(args[8] == "+extension"@ && args[9] == "Composite"@);
}

/// Of a word with more than one `x`, the two numbers in front count; a word without one gives no
/// size, and neither does a line that ends after `dimensions:`.
pub proof fn law_size_words(a: Seq<char>, b: Seq<char>, more: Seq<char>)
    requires
        forall|i: int| 0 <= i < a.len() ==> !is_white_space(a[i]),
        forall|i: int| 0 <= i < b.len() ==> !is_white_space(b[i]),
        forall|i: int| 0 <= i < more.len() ==> !is_white_space(more[i]),
        !a.contains('x'),
        !b.contains('x'),
    ensures
        size_in_line("dimensions:"@ + (a + seq!['x'] + (b + seq!['x'] + more))) == size_in_line(
            "dimensions:"@ + (a + seq!['x'] + b),
        ),
        size_in_line("dimensions:"@ + a) is None,
{
    let long = a + seq!['x'] + (b + seq!['x'] + more);
    let short = a + seq!['x'] + b;
    lemma_size_word(long);
    lemma_size_word(short);
    lemma_size_word(a);
    lemma_split_at(a, 'x', b + seq!['x'] + more);
    lemma_split_at(b, 'x', more);
    lemma_split_at(a, 'x', b);
    lemma_split_whole(b, 'x');
    lemma_split_whole(a, 'x');
    assert(split(long, 'x')[0] == a && split(long, 'x')[1] == b);
    assert(split(short, 'x')[0] == a && split(short, 'x')[1] == b);
}

/// What a line of `dimensions:` and one word says.
proof fn lemma_size_word(word: Seq<char>)
    requires
        forall|i: int| 0 <= i < word.len() ==> !is_white_space(word[i]),
    ensures
        size_in_line("dimensions:"@ + word) == (if word.len() > 0 && split(word, 'x').len() >= 2 {
            Some(size_in_pieces(split(word, 'x')))
        } else {
            None
        }),
{
    reveal_strlit("dimensions:");
    let none = Seq::<char>::empty();
    let line = "dimensions:"@ + word;
    assert(!is_white_space(line[0]));
    if word.len() > 0 {
        assert(line.last() == word.last());
    } else {
        assert(line.last() == ':');
    }
    law_trimmed(none, line, none);
    assert(none + line + none =~= line);
    assert(line.skip(11) =~= word);
    assert(line.subrange(0, 11) =~= "dimensions:"@);
    law_first_word(none, word, none);
    assert(none + word + none =~= word);
    if word.len() == 0 {
        assert(word =~= none);
    }
}

} // verus!
