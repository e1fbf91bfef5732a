//! Column layout of what a session shows: a right-aligned tag field, a
//! styled level glyph, and messages cut into lines of a fixed width.

use crate::level::LogLevel;
use crate::parser::{LineModel, LogLine, Process, ProcessModel};
use crate::text::{blanks, piece, push_blanks};
use ansi_term::{Colour, Style};
use vstd::prelude::*;

verus! {

/// The width of the tag field unless another is asked for.
pub const DEFAULT_TAG_WIDTH: usize = 32;

/// The widest a line is laid out, whatever the terminal reports.
pub const WIDTH: usize = 180;

/// ansi_term's `Style`: a terminal text style, carried through unread.
#[verifier::external_type_specification]
#[verifier::external_body]
pub struct ExStyle(Style);

/// ansi_term's `Colour`: a terminal colour, carried through unread.
#[verifier::external_type_specification]
#[verifier::external_body]
pub struct ExColour(Colour);

/// Relies on ansi_term's `Colour::bold`: a bold style in that colour.
pub assume_specification[ Colour::bold ](c: Colour) -> Style;

/// Relies on ansi_term's `Colour::dimmed`: a dimmed style in that colour.
pub assume_specification[ Colour::dimmed ](c: Colour) -> Style;

/// Relies on ansi_term's `Style::reverse`: the style with reversed colours.
pub assume_specification[ Style::reverse ](s: &Style) -> Style;

/// Relies on ansi_term's `Colour::Fixed`: the colour of that number in the
/// 256-colour palette.
#[verifier::external_body]
fn fixed_colour(code: u8) -> Colour {
    Colour::Fixed(code)
}

/// Relies on ansi_term's `Colour::White`.
#[verifier::external_body]
fn white() -> Colour {
    Colour::White
}

/// Relies on ansi_term's `Style::paint` and the `Display` of the painted
/// string, which writes the style's prefix, the text, and the style's
/// suffix.
#[verifier::external_body]
fn paint(style: Style, text: &str) -> (r: String)
    ensures
        exists|a: Seq<char>, b: Seq<char>| r@ == a + text@ + b,
{
    style.paint(text).to_string()
}

/// Relies on term_size's `dimensions`: the terminal's columns, which it
/// reports only where they are not zero.
#[verifier::external_body]
fn term_width() -> (r: Option<usize>)
    ensures
        r matches Some(w) ==> w > 0,
{
    term_size::dimensions().map(|(w, _)| w)
}

/// The width to lay out in: what the terminal reports, if anything, and
/// `width` at most.
pub open spec fn fit_width_spec(reported: Option<usize>, width: usize) -> usize {
    match reported {
        Some(w) => if w < width {
            w
        } else {
            width
        },
        None => width,
    }
}

pub fn fit_width(reported: Option<usize>, width: usize) -> (r: usize)
    ensures
        r == fit_width_spec(reported, width),
{
    match reported {
        Some(w) => if w < width {
            w
        } else {
            width
        },
        None => width,
    }
}

/// The terminal's width, and `width` at most.
pub fn term_width_or_width(width: usize) -> (r: usize)
    ensures
        r <= width,
        width > 0 ==> r > 0,
{
    fit_width(term_width(), width)
}

/// `t` right-aligned in a field of `w` characters; a longer `t` is kept
/// whole.
pub open spec fn pad_left(t: Seq<char>, w: nat) -> Seq<char> {
    if t.len() < w {
        blanks((w - t.len()) as nat) + t
    } else {
        t
    }
}

/// The last `n` characters of `s`, or all of them where it has fewer.
pub open spec fn last_chars(s: Seq<char>, n: nat) -> Seq<char> {
    if n < s.len() {
        s.subrange(s.len() - n, s.len() as int)
    } else {
        s
    }
}

/// `m` cut into pieces of `area` characters, each after the first on a new
/// line that starts with `header` blanks.
pub open spec fn wrapped(m: Seq<char>, area: nat, header: nat) -> Seq<char>
    decreases m.len(),
{
    if area == 0 || m.len() <= area {
        m
    } else {
        m.take(area as int) + seq!['\n'] + blanks(header) + wrapped(
            m.skip(area as int),
            area,
            header,
        )
    }
}

/// `m` laid out in `width` columns after a header of `header` columns; where
/// the header leaves no room, `m` stays on one line.
pub open spec fn laid_out(m: Seq<char>, width: nat, header: nat) -> Seq<char> {
    if header < width {
        wrapped(m, (width - header) as nat, header)
    } else {
        m
    }
}

/// `name=value ` for a field that is there.
pub open spec fn field_text(name: Seq<char>, value: Option<Seq<char>>) -> Seq<char> {
    match value {
        Some(v) => name + seq!['='] + v + seq![' '],
        None => Seq::empty(),
    }
}

/// The metadata of a record: date, time and thread id, where they are
/// there.
pub open spec fn fields_text(log: LineModel) -> Seq<char> {
    field_text("date"@, log.date) + field_text("time"@, log.time) + field_text("tid"@, log.tid)
}

/// `msg` once the metadata line of a record that starts a run of its tag is
/// added: the fields, with the last blank turned into a line break, and then
/// the header of the message line.
pub open spec fn with_fields(
    msg: Seq<char>,
    log: LineModel,
    is_new_tag: bool,
    tag_width: nat,
    level: Seq<char>,
) -> Seq<char> {
    let m = msg + fields_text(log);
    if !is_new_tag {
        msg
    } else if m.len() == 0 {
        m
    } else {
        m.drop_last() + seq!['\n'] + blanks(tag_width + 1) + level + seq![' ']
    }
}

/// The `Started` line: a blank line, a blank header, and the sentence.
pub open spec fn start_text(p: ProcessModel, width: nat, header: nat) -> Seq<char> {
    let target = match p.target {
        Some(t) => t,
        None => Seq::empty(),
    };
    let sentence = "Process "@ + p.package + " ("@ + p.pid + ") created for "@ + target;
    seq!['\n'] + blanks(header) + laid_out(sentence, width, header)
}

/// The `Ended` line: a blank line, a blank header, and the sentence.
pub open spec fn end_text(p: ProcessModel, width: nat, header: nat) -> Seq<char> {
    let sentence = "Process "@ + p.pid + " ended for "@ + p.package;
    seq!['\n'] + blanks(header) + laid_out(sentence, width, header)
}

/// The tag field of a record: the tag's last characters where it starts a
/// run of its tag, blank where it does not.
pub open spec fn tag_field(tag: Seq<char>, is_new_tag: bool, tag_width: nat) -> Seq<char> {
    let shown = if !is_new_tag {
        Seq::empty()
    } else {
        last_chars(tag, tag_width)
    };
    pad_left(shown, tag_width)
}

/// A record as shown: tag field, glyph, metadata where it starts a run of
/// its tag, and the message laid out.
pub open spec fn log_text(
    log: LineModel,
    is_new_tag: bool,
    glyph: Seq<char>,
    width: nat,
    tag_width: nat,
    header: nat,
) -> Seq<char> {
    tag_field(log.tag, is_new_tag, tag_width) + seq![' '] + glyph + seq![' '] + with_fields(
        Seq::empty(),
        log,
        is_new_tag,
        tag_width,
        glyph,
    ) + laid_out(log.message, width, header)
}

/// Whether `g` is the glyph of `level`, ` L `, with whatever styling
/// around it.
pub open spec fn is_glyph(g: Seq<char>, level: LogLevel) -> bool {
    exists|a: Seq<char>, b: Seq<char>| g == a + seq![' ', level.letter_spec(), ' '] + b
}

/// A message no longer than the wrap width comes back unchanged; one
/// character more is cut once, with a line break and `header` blanks before
/// its last character.
pub proof fn lemma_wrap_short_and_one_over(m: Seq<char>, area: nat, header: nat)
    requires
        area > 0,
    ensures
        m.len() <= area ==> wrapped(m, area, header) == m,
        m.len() == area + 1 ==> wrapped(m, area, header) == m.take(area as int) + seq!['\n']
            + blanks(header) + m.skip(area as int),
{
    if m.len() == area + 1 {
        assert(m.skip(area as int).len() == 1);
        assert(wrapped(m.skip(area as int), area, header) == m.skip(area as int));
    }
}

/// The last `size` characters of `s`, or all of `s` where it has fewer;
/// nothing for a size of zero.
pub fn take_last(s: &str, size: usize) -> (r: Option<&str>)
    ensures
        size == 0 ==> r is None,
        size > 0 ==> (r matches Some(t) && t@ == last_chars(s@, size as nat)),
{
    if size < 1 {
        return None;
    }
    let n = s.unicode_len();
    if size >= n {
        return Some(s);
    }
    Some(s.substring_char(n - size, n))
}

/// Cuts `message` into pieces of `width - header_size` characters, and
/// starts each piece after the first on a new line, after `header_size`
/// blanks.
pub fn indent_wrap(message: &str, width: usize, header_size: usize) -> (r: String)
    requires
        header_size < width,
    ensures
        r@ == wrapped(message@, (width - header_size) as nat, header_size as nat),
{
    let area = width - header_size;
    let n = message.unicode_len();
    let ghost m = message@;
    let ghost whole = wrapped(m, area as nat, header_size as nat);
    let mut current: usize = 0;
    let mut buf = String::new();
    assert(m.skip(0) =~= m);
    assert(buf@ + whole =~= whole);
    while current < n
        invariant
            n == m.len(),
            m == message@,
            area > 0,
            area == width - header_size,
            whole == wrapped(m, area as nat, header_size as nat),
            current <= n,
            current < n ==> buf@ + wrapped(m.skip(current as int), area as nat, header_size as nat)
                == whole,
            current == n ==> buf@ == whole,
        decreases n - current,
    {
        let ghost before = buf@;
        let ghost rest = m.skip(current as int);
        let next = if n - current <= area {
            n
        } else {
            current + area
        };
        buf.append(piece(message, current, next).as_str());
        if next < n {
            buf.append("\n");
            push_blanks(&mut buf, header_size);
            proof {
                reveal_strlit("\n");
                assert(rest.take(area as int) =~= m.subrange(current as int, next as int));
                assert(rest.skip(area as int) =~= m.skip(next as int));
                assert(buf@ =~= before + rest.take(area as int) + seq!['\n'] + blanks(
                    header_size as nat,
                ));
            }
        } else {
            assert(rest =~= m.subrange(current as int, next as int));
        }
        current = next;
    }
    if n == 0 {
        assert(whole =~= m);
        assert(buf@ =~= whole);
    }
    buf
}

/// The styles of the levels that stand out.
#[derive(Debug, Default)]
pub struct Colors {
    pub debug: Style,
    pub warn: Style,
    pub error: Style,
}

impl Colors {
    /// Reversed bold colours of the 256-colour palette: blue for debug,
    /// yellow for warnings, red for errors.
    pub fn new() -> Colors {
        Colors {
            debug: fixed_colour(111).bold().reverse(),
            warn: fixed_colour(222).bold().reverse(),
            error: fixed_colour(174).bold().reverse(),
        }
    }
}

/// Lays out what a session shows in columns.
pub struct Printer {
    pub colors: Colors,
    pub tag_width: usize,
    pub header_size: usize,
}

/// What shows the lines of a session.
pub trait Presenter {
    /// The text that announces a started process.
    fn print_proc_start(&self, process: Process) -> String;

    /// The text that announces an ended process.
    fn print_proc_end(&self, process: Process) -> String;

    /// The text of a record.
    fn print_log(&self, log: &LogLine, is_new_tag: bool) -> String;
}

impl Printer {
    /// A printer whose tag field is `tag_width` wide.
    pub fn new(tag_width: usize) -> (r: Printer)
        requires
            tag_width + 5 <= usize::MAX,
        ensures
            r.tag_width == tag_width,
            r.header_size == tag_width + 5,
    {
        Printer { colors: Colors::new(), tag_width, header_size: tag_width + 1 + 3 + 1 }
    }

    /// `tag` right-aligned in a field of `width` characters.
    pub fn fmt_header(tag: &str, width: usize) -> (r: String)
        ensures
            r@ == pad_left(tag@, width as nat),
    {
        let n = tag.unicode_len();
        let mut r = String::new();
        if n < width {
            push_blanks(&mut r, width - n);
        }
        r.append(tag);
        r
    }

    /// Adds to `msg` the metadata line of a record that starts a run of its
    /// tag; `level` is the glyph that the message line then starts with.
    pub fn build_date_time_pid_str(
        log: &LogLine,
        is_new_tag: bool,
        msg: &mut String,
        tag_width: usize,
        level: &str,
    )
        ensures
            final(msg)@ == with_fields(old(msg)@, log@, is_new_tag, tag_width as nat, level@),
    {
        if is_new_tag {
            proof {
                reveal_strlit("date=");
                reveal_strlit("time=");
                reveal_strlit("tid=");
                reveal_strlit(" ");
                reveal_strlit("\n");
                reveal_strlit("date");
                reveal_strlit("time");
                reveal_strlit("tid");
            }
            let ghost start = msg@;
            if let Some(date) = log.date.as_ref() {
                msg.append("date=");
                msg.append(date.as_str());
                msg.append(" ");
            }
            assert(msg@ =~= start + field_text("date"@, log@.date));
            if let Some(time) = log.time.as_ref() {
                msg.append("time=");
                msg.append(time.as_str());
                msg.append(" ");
            }
            assert(msg@ =~= start + field_text("date"@, log@.date) + field_text(
                "time"@,
                log@.time,
            ));
            if let Some(tid) = log.tid.as_ref() {
                msg.append("tid=");
                msg.append(tid.as_str());
                msg.append(" ");
            }
            assert(msg@ =~= start + fields_text(log@));
            if msg.unicode_len() > 0 {
                let n = msg.unicode_len();
                let mut cut = piece(msg.as_str(), 0, n - 1);
                cut.append("\n");
                push_blanks(&mut cut, tag_width);
                cut.append(" ");
                cut.append(level);
                cut.append(" ");
                assert(cut@ =~= (start + fields_text(log@)).drop_last() + seq!['\n'] + blanks(
                    tag_width as nat + 1,
                ) + level@ + seq![' ']);
                *msg = cut;
            }
        }
    }

    /// The style of a level's glyph.
    pub fn style_for(&self, level: LogLevel) -> Style {
        match level {
            LogLevel::DEBUG => self.colors.debug,
            LogLevel::WARN => self.colors.warn,
            LogLevel::ERROR => self.colors.error,
            _ => white().dimmed().reverse(),
        }
    }

    /// The glyph of a level, ` L `, styled.
    pub fn level_glyph(&self, level: LogLevel) -> (r: String)
        ensures
            is_glyph(r@, level),
    {
        let mut text = String::new();
        text.append(" ");
        text.append(level.to_string().as_str());
        text.append(" ");
        proof {
            reveal_strlit(" ");
            assert(text@ =~= seq![' ', level.letter_spec(), ' ']);
        }
        paint(self.style_for(level), text.as_str())
    }

    fn laid_out_text(&self, m: &str, width: usize) -> (r: String)
        ensures
            r@ == laid_out(m@, width as nat, self.header_size as nat),
    {
        if self.header_size < width {
            indent_wrap(m, width, self.header_size)
        } else {
            m.to_owned()
        }
    }

    /// The text that announces a started process, in `width` columns.
    pub fn proc_start_text(&self, process: &Process, width: usize) -> (r: String)
        ensures
            r@ == start_text(process@, width as nat, self.header_size as nat),
    {
        let mut sentence = String::new();
        sentence.append("Process ");
        sentence.append(process.line_package.as_str());
        sentence.append(" (");
        sentence.append(process.line_pid.as_str());
        sentence.append(") created for ");
        match &process.target {
            Some(t) => sentence.append(t.as_str()),
            None => {},
        }
        let mut r = String::new();
        r.append("\n");
        push_blanks(&mut r, self.header_size);
        r.append(self.laid_out_text(sentence.as_str(), width).as_str());
        proof {
            reveal_strlit("\n");
            let target = match process@.target {
                Some(t) => t,
                None => Seq::empty(),
            };
            assert(sentence@ =~= "Process "@ + process@.package + " ("@ + process@.pid
                + ") created for "@ + target);
            assert(r@ =~= start_text(process@, width as nat, self.header_size as nat));
        }
        r
    }

    /// The text that announces an ended process, in `width` columns.
    pub fn proc_end_text(&self, process: &Process, width: usize) -> (r: String)
        ensures
            r@ == end_text(process@, width as nat, self.header_size as nat),
    {
        let mut sentence = String::new();
        sentence.append("Process ");
        sentence.append(process.line_pid.as_str());
        sentence.append(" ended for ");
        sentence.append(process.line_package.as_str());
        let mut r = String::new();
        r.append("\n");
        push_blanks(&mut r, self.header_size);
        r.append(self.laid_out_text(sentence.as_str(), width).as_str());
        proof {
            reveal_strlit("\n");
            assert(sentence@ =~= "Process "@ + process@.pid + " ended for "@ + process@.package);
            assert(r@ =~= end_text(process@, width as nat, self.header_size as nat));
        }
        r
    }

    /// The text of a record in `width` columns, with `glyph` as its level
    /// glyph.
    pub fn log_text(&self, log: &LogLine, is_new_tag: bool, glyph: &str, width: usize) -> (r:
        String)
        ensures
            r@ == log_text(
                log@,
                is_new_tag,
                glyph@,
                width as nat,
                self.tag_width as nat,
                self.header_size as nat,
            ),
    {
        let shown: &str = if is_new_tag {
            match take_last(log.tag.as_str(), self.tag_width) {
                Some(t) => t,
                None => "",
            }
        } else {
            ""
        };
        proof {
            reveal_strlit("");
            reveal_strlit(" ");
        }
        let mut r = Printer::fmt_header(shown, self.tag_width);
        assert(r@ =~= tag_field(log@.tag, is_new_tag, self.tag_width as nat));
        r.append(" ");
        r.append(glyph);
        r.append(" ");
        let mut msg = String::new();
        Printer::build_date_time_pid_str(log, is_new_tag, &mut msg, self.tag_width, glyph);
        r.append(msg.as_str());
        r.append(self.laid_out_text(log.message.as_str(), width).as_str());
        assert(r@ =~= log_text(
            log@,
            is_new_tag,
            glyph@,
            width as nat,
            self.tag_width as nat,
            self.header_size as nat,
        ));
        r
    }
}

impl Presenter for Printer {
    fn print_proc_start(&self, process: Process) -> (r: String)
        ensures
            exists|w: nat|
                0 < w <= WIDTH && r@ == start_text(process@, w, self.header_size as nat),
    {
        let w = term_width_or_width(WIDTH);
        let r = self.proc_start_text(&process, w);
        assert(0 < w as nat <= WIDTH && r@ == start_text(
            process@,
            w as nat,
            self.header_size as nat,
        ));
        r
    }

    fn print_proc_end(&self, process: Process) -> (r: String)
        ensures
            exists|w: nat| 0 < w <= WIDTH && r@ == end_text(process@, w, self.header_size as nat),
    {
        let w = term_width_or_width(WIDTH);
        let r = self.proc_end_text(&process, w);
        assert(0 < w as nat <= WIDTH && r@ == end_text(process@, w as nat, self.header_size as nat));
        r
    }

    fn print_log(&self, log: &LogLine, is_new_tag: bool) -> (r: String)
        ensures
            exists|w: nat, g: Seq<char>|
                0 < w <= WIDTH && is_glyph(g, log.level) && r@ == log_text(
                    log@,
                    is_new_tag,
                    g,
                    w,
                    self.tag_width as nat,
                    self.header_size as nat,
                ),
    {
        let glyph = self.level_glyph(log.level);
        let w = term_width_or_width(WIDTH);
        let r = self.log_text(log, is_new_tag, glyph.as_str(), w);
        assert(0 < w as nat <= WIDTH && is_glyph(glyph@, log.level) && r@ == log_text(
            log@,
            is_new_tag,
            glyph@,
            w as nat,
            self.tag_width as nat,
            self.header_size as nat,
        ));
        r
    }
}

} // verus!
