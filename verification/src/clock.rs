//! The text of the player's status bar: the clock, the progress bar and the
//! volume.
use vstd::prelude::*;
use crate::text::{
    decimal, decimal2, digit, digits_value, is_ascii_char, is_digit, lemma_decimal2_two_digits,
    lemma_decimal_digits, push_char, push_decimal, push_decimal2, push_str,
};

verus! {

/// The highest seconds count the clock shows: below 2^24 seconds (about 194
/// days) every whole second is counted exactly.
pub const CLOCK_LIMIT: u32 = 16777216;

/// `H:MM:SS` when at least an hour has passed, `MM:SS` otherwise.
pub open spec fn clock_text(t: nat) -> Seq<char> {
    let h = t / 3600;
    let m = (t % 3600) / 60;
    let s = t % 60;
    if h > 0 {
        decimal(h) + seq![':'] + decimal2(m) + seq![':'] + decimal2(s)
    } else {
        decimal2(m) + seq![':'] + decimal2(s)
    }
}

/// Formats a number of seconds as a clock reading.
pub fn format_time(total_seconds: u32) -> (res: String)
    requires
        total_seconds < CLOCK_LIMIT,
    ensures
        res@ == clock_text(total_seconds as nat),
{
    let hours = total_seconds / 3600;
    let minutes = (total_seconds % 3600) / 60;
    let seconds = total_seconds % 60;
    let mut res = String::new();
    if hours > 0 {
        push_decimal(&mut res, hours as u64);
        push_char(&mut res, ':');
    }
    push_decimal2(&mut res, minutes as u64);
    push_char(&mut res, ':');
    push_decimal2(&mut res, seconds as u64);
    res
}

/// What the status bar shows about playback.
#[derive(Debug, Clone, Copy, PartialEq, Eq, Structural)]
pub struct PlayerStatus {
    pub playing: bool,
    pub width: u32,
    pub height: u32,
    pub length: u32,
    pub position: u32,
    pub volume: u32,
}

/// The fixed parts of a status bar line and the room left for the bar.
pub struct BarText {
    pub icon: String,
    pub time: String,
    pub capacity: usize,
}

/// `|> ` while playing, `|| ` while paused.
pub open spec fn icon_text(playing: bool) -> Seq<char> {
    if playing {
        seq!['|', '>', ' ']
    } else {
        seq!['|', '|', ' ']
    }
}

/// ` position/length `, from the two clock texts.
pub open spec fn time_field_text(position: Seq<char>, length: Seq<char>) -> Seq<char> {
    seq![' '] + position + seq!['/'] + length + seq![' ']
}

/// ` position/length ` as two clock readings.
pub open spec fn time_text(position: nat, length: nat) -> Seq<char> {
    time_field_text(clock_text(position), clock_text(length))
}

/// `s` is made of ASCII characters only.
pub open spec fn ascii_text(s: Seq<char>) -> bool {
    forall|i: int| 0 <= i < s.len() ==> is_ascii_char(#[trigger] s[i])
}

/// Room for the bar: the width less the icon, the time and the two brackets,
/// and never below zero.
pub open spec fn bar_capacity(width: int, time_len: int) -> int {
    let room = width - (3 + time_len + 2);
    if room > 0 {
        room
    } else {
        0
    }
}

proof fn lemma_decimal_len(n: nat)
    ensures
        1 <= decimal(n).len() <= n + 1,
        n < 100 ==> decimal(n).len() <= 2,
    decreases n,
{
    if n >= 10 {
        lemma_decimal_len(n / 10);
    }
}

proof fn lemma_clock_len(t: nat)
    requires
        t < CLOCK_LIMIT,
    ensures
        clock_text(t).len() <= 20,
{
    lemma_decimal_len(t / 3600);
    lemma_decimal_len((t % 3600) / 60);
    lemma_decimal_len(t % 60);
    assert(t / 3600 < 4661);
    if t / 3600 >= 10 {
        lemma_decimal_len(t / 3600 / 10);
        if t / 3600 / 10 >= 10 {
            lemma_decimal_len(t / 3600 / 100);
            if t / 3600 / 100 >= 10 {
                lemma_decimal_len(t / 3600 / 1000);
            }
        }
    }
}

/// The time part of the status bar: ` position/length ` from the two clock
/// texts.
pub fn time_field(position: &str, length: &str) -> (res: String)
    ensures
        res@ == time_field_text(position@, length@),
{
    let mut time = String::new();
    push_char(&mut time, ' ');
    push_str(&mut time, position);
    push_char(&mut time, '/');
    push_str(&mut time, length);
    push_char(&mut time, ' ');
    assert(time@ =~= time_field_text(position@, length@));
    time
}

/// The icon and the room for the bar of a status line whose time part is
/// `time`. The width is taken as a signed 32-bit number, wrapping as a cast
/// does; the time text, ASCII only, counts one cell per character.
pub fn bar_text_from(playing: bool, width: u32, time: String) -> (res: BarText)
    requires
        ascii_text(time@),
        time@.len() + 5 <= i32::MAX,
        (width as i32) - (time@.len() + 5) >= i32::MIN,
    ensures
        res.icon@ == icon_text(playing),
        res.time@ == time@,
        res.capacity == bar_capacity((width as i32) as int, time@.len() as int),
{
    let mut icon = String::new();
    if playing {
        push_str(&mut icon, "|> ");
    } else {
        push_str(&mut icon, "|| ");
    }
    proof {
        reveal_strlit("|> ");
        reveal_strlit("|| ");
    }
    assert(icon@ =~= icon_text(playing));
    let time_len = time.unicode_len();
    let reserved: i32 = 3 + (time_len as i32) + 2;
    let room: i32 = (width as i32) - reserved;
    let capacity: usize = if room > 0 { room as usize } else { 0 };
    BarText { icon, time, capacity }
}

proof fn lemma_clock_ascii(t: nat)
    ensures
        ascii_text(clock_text(t)),
{
    lemma_decimal_digits(t / 3600);
    lemma_decimal2_two_digits((t % 3600) / 60);
    lemma_decimal2_two_digits(t % 60);
    let c = clock_text(t);
    let h = decimal(t / 3600);
    let m = decimal2((t % 3600) / 60);
    let s = decimal2(t % 60);
    assert(is_ascii_char(':'));
    assert forall|i: int| 0 <= i < c.len() implies is_ascii_char(#[trigger] c[i]) by {
        if t / 3600 > 0 {
            if i < h.len() {
                assert(c[i] == h[i]);
            } else if i == h.len() || i == h.len() + 3 {
                assert(c[i] == ':');
            } else if i < h.len() + 3 {
                assert(c[i] == m[i - h.len() - 1]);
            } else {
                assert(c[i] == s[i - h.len() - 4]);
            }
        } else {
            if i < 2 {
                assert(c[i] == m[i]);
            } else if i == 2 {
                assert(c[i] == ':');
            } else {
                assert(c[i] == s[i - 3]);
            }
        }
    }
}

/// The icon, the time and the room for the bar of a status line.
pub fn bar_text(status: &PlayerStatus) -> (res: BarText)
    requires
        status.position < CLOCK_LIMIT,
        status.length < CLOCK_LIMIT,
        status.width <= i32::MAX,
    ensures
        res.icon@ == icon_text(status.playing),
        res.time@ == time_text(status.position as nat, status.length as nat),
        res.capacity == bar_capacity(status.width as int, res.time@.len() as int),
{
    let pos = format_time(status.position);
    let len = format_time(status.length);
    let time = time_field(pos.as_str(), len.as_str());
    proof {
        lemma_clock_len(status.position as nat);
        lemma_clock_len(status.length as nat);
        lemma_clock_ascii(status.position as nat);
        lemma_clock_ascii(status.length as nat);
        let t = time@;
        let p = clock_text(status.position as nat);
        let l = clock_text(status.length as nat);
        assert(is_ascii_char(' ') && is_ascii_char('/'));
        assert forall|i: int| 0 <= i < t.len() implies is_ascii_char(#[trigger] t[i]) by {
            if i == 0 || i == t.len() - 1 || i == p.len() + 1 {
            } else if i <= p.len() {
                assert(t[i] == p[i - 1]);
            } else {
                assert(t[i] == l[i - p.len() - 2]);
            }
        }
    }
    bar_text_from(status.playing, status.width, time)
}

/// `n` copies of `c`.
pub open spec fn repeat(c: char, n: nat) -> Seq<char> {
    Seq::new(n, |i: int| c)
}

/// The status bar line with `done` cells of progress: the icon, the time, and
/// in brackets `done` marks followed by dots up to the bar's room.
pub open spec fn bar_line_text(icon: Seq<char>, time: Seq<char>, capacity: nat, done: nat) -> Seq<char> {
    let todo: nat = if capacity > done { (capacity - done) as nat } else { 0 };
    icon + time + seq!['['] + repeat('#', done) + repeat('.', todo) + seq![']']
}

fn push_repeat(s: &mut String, c: char, n: usize)
    ensures
        final(s)@ == old(s)@ + repeat(c, n as nat),
{
    let ghost start = s@;
    let mut i: usize = 0;
    while i < n
        invariant
            i <= n,
            s@ == start + repeat(c, i as nat),
        decreases n - i,
    {
        push_char(s, c);
        i = i + 1;
        assert(s@ =~= start + repeat(c, i as nat));
    }
}

/// The status bar line for `done` cells of progress.
pub fn bar_line(text: &BarText, done: usize) -> (res: String)
    ensures
        res@ == bar_line_text(text.icon@, text.time@, text.capacity as nat, done as nat),
{
    let todo: usize = text.capacity.saturating_sub(done);
    let mut res = String::new();
    push_str(&mut res, text.icon.as_str());
    push_str(&mut res, text.time.as_str());
    push_char(&mut res, '[');
    push_repeat(&mut res, '#', done);
    push_repeat(&mut res, '.', todo);
    push_char(&mut res, ']');
    res
}

/// While the progress does not exceed the room, the bar fills its room
/// exactly: the line is as long as the icon, the time, the room and the two
/// brackets.
pub proof fn lemma_bar_fills_room(icon: Seq<char>, time: Seq<char>, capacity: nat, done: nat)
    requires
        done <= capacity,
    ensures
        bar_line_text(icon, time, capacity, done).len() == icon.len() + time.len() + capacity + 2,
{
}

/// The clock shows the hours, minutes and seconds that make up the count:
/// minutes and seconds below sixty, and the hours only from one hour on.
pub proof fn lemma_clock_parts(t: nat)
    ensures
        t == (t / 3600) * 3600 + ((t % 3600) / 60) * 60 + t % 60,
        (t % 3600) / 60 < 60,
        t % 60 < 60,
        (t / 3600 > 0) <==> t >= 3600,
{
    assert(t == (t / 3600) * 3600 + ((t % 3600) / 60) * 60 + t % 60) by (nonlinear_arith);
}

/// The clock text has two fields, minutes and seconds, or three, hours,
/// minutes and seconds, separated by `:`. Every field is made of digits; the
/// minutes and seconds have exactly two digits and stand for numbers below
/// sixty; the hours field is there exactly from one hour on, and the fields
/// add back up to the seconds count.
pub proof fn lemma_clock_fields(t: nat)
    ensures
        ({
            let h = t / 3600;
            let m = (t % 3600) / 60;
            let s = t % 60;
            &&& clock_text(t) == (if t >= 3600 {
                decimal(h) + seq![':'] + decimal2(m) + seq![':'] + decimal2(s)
            } else {
                decimal2(m) + seq![':'] + decimal2(s)
            })
            &&& forall|i: int| 0 <= i < decimal(h).len() ==> is_digit(#[trigger] decimal(h)[i])
            &&& decimal(h).len() >= 1
            &&& decimal2(m) == seq![digit(m / 10), digit(m % 10)]
            &&& decimal2(s) == seq![digit(s / 10), digit(s % 10)]
            &&& is_digit(decimal2(m)[0]) && is_digit(decimal2(m)[1])
            &&& is_digit(decimal2(s)[0]) && is_digit(decimal2(s)[1])
            &&& digits_value(decimal(h)) == h
            &&& digits_value(decimal2(m)) == m
            &&& digits_value(decimal2(s)) == s
            &&& m < 60 && s < 60
            &&& (t >= 3600 ==> h >= 1 && h * 3600 + m * 60 + s == t)
            &&& (t < 3600 ==> m * 60 + s == t)
        }),
{
    lemma_clock_parts(t);
    lemma_decimal_digits(t / 3600);
    lemma_decimal2_two_digits((t % 3600) / 60);
    lemma_decimal2_two_digits(t % 60);
}

/// `Vol: N%`.
pub open spec fn volume_text(volume: nat) -> Seq<char> {
    seq!['V', 'o', 'l', ':', ' '] + decimal(volume) + seq!['%']
}

/// The volume line of the status bar.
pub fn volume_label(volume: u32) -> (res: String)
    ensures
        res@ == volume_text(volume as nat),
{
    let mut res = String::new();
    push_str(&mut res, "Vol: ");
    proof {
        reveal_strlit("Vol: ");
    }
    push_decimal(&mut res, volume as u64);
    push_char(&mut res, '%');
    res
}

} // verus!
