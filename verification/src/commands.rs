//! The text of the commands the video player runs, and the reading of the
//! frame rate the probe prints.
use vstd::prelude::*;
use crate::text::{chars_of, push_char, push_signed_decimal, push_str, signed_decimal, string_of_range};

verus! {

/// The command that prints the frame rate of the first video stream of
/// `name`, as a fraction.
pub open spec fn probe_command_text(name: Seq<char>) -> Seq<char> {
    "ffprobe -v error -select_streams v:0 -show_entries stream=r_frame_rate -of default=noprint_wrappers=1:nokey=1 "@
        + name
}

/// The frame-rate probe command for the video `name`.
pub fn probe_command(name: &str) -> (res: String)
    ensures
        res@ == probe_command_text(name@),
{
    let mut res = String::new();
    push_str(
        &mut res,
        "ffprobe -v error -select_streams v:0 -show_entries stream=r_frame_rate -of default=noprint_wrappers=1:nokey=1 ",
    );
    push_str(&mut res, name);
    res
}

/// The command that splits the video `name` into numbered frame pictures sized
/// for a terminal of `rows` by `cols` cells.
pub open spec fn frames_command_text(name: Seq<char>, cols: int, rows: int) -> Seq<char> {
    "ffmpeg -i \""@ + name + "\" -vf \"scale="@ + signed_decimal(cols) + ":"@
        + signed_decimal(rows * 2 - 3)
        + ":force_original_aspect_ratio=decrease,scale=iw:ih*0.5,pad="@ + signed_decimal(cols)
        + ":"@ + signed_decimal(rows)
        + ":(ow-iw)/2:(oh-ih)/2,setsar=1\" -sws_flags neighbor imgs/image%50d.png -threads 0"@
}

/// The frame-splitting command for the video `name`.
pub fn frames_command(name: &str, cols: i32, rows: i32) -> (res: String)
    requires
        i32::MIN <= rows * 2 - 3,
        rows * 2 <= i32::MAX,
    ensures
        res@ == frames_command_text(name@, cols as int, rows as int),
{
    let mut res = String::new();
    push_str(&mut res, "ffmpeg -i \"");
    push_str(&mut res, name);
    push_str(&mut res, "\" -vf \"scale=");
    push_signed_decimal(&mut res, cols as i64);
    push_str(&mut res, ":");
    push_signed_decimal(&mut res, (rows * 2 - 3) as i64);
    push_str(&mut res, ":force_original_aspect_ratio=decrease,scale=iw:ih*0.5,pad=");
    push_signed_decimal(&mut res, cols as i64);
    push_str(&mut res, ":");
    push_signed_decimal(&mut res, rows as i64);
    push_str(&mut res, ":(ow-iw)/2:(oh-ih)/2,setsar=1\" -sws_flags neighbor imgs/image%50d.png -threads 0");
    res
}

/// The command that plays the sound of `name`, taking commands on the socket
/// `socket`.
pub open spec fn audio_command_text(socket: Seq<char>, name: Seq<char>) -> Seq<char> {
    "mpv --no-video --quiet --no-terminal --input-ipc-server="@ + socket + " \""@ + name + "\""@
}

/// The audio command for the video `name`.
pub fn audio_command(socket: &str, name: &str) -> (res: String)
    ensures
        res@ == audio_command_text(socket@, name@),
{
    let mut res = String::new();
    push_str(&mut res, "mpv --no-video --quiet --no-terminal --input-ipc-server=");
    push_str(&mut res, socket);
    push_str(&mut res, " \"");
    push_str(&mut res, name);
    push_str(&mut res, "\"");
    res
}

/// The question asked before playing the video `path`, followed by fifty
/// spaces that blank what was written there before.
pub open spec fn video_prompt_text(path: Seq<char>) -> Seq<char> {
    "Show video '"@ + path + "'? (y/n)"@ + Seq::new(50, |i: int| ' ')
}

/// The question asked before playing the video `path`.
pub fn video_prompt(path: &str) -> (res: String)
    ensures
        res@ == video_prompt_text(path@),
{
    let mut res = String::new();
    push_str(&mut res, "Show video '");
    push_str(&mut res, path);
    push_str(&mut res, "'? (y/n)");
    let ghost start = res@;
    let mut i: usize = 0;
    while i < 50
        invariant
            i <= 50,
            res@ == start + Seq::new(i as nat, |j: int| ' '),
        decreases 50 - i,
    {
        push_char(&mut res, ' ');
        i = i + 1;
        assert(res@ =~= start + Seq::new(i as nat, |j: int| ' '));
    }
    res
}

/// `c` has the Unicode property White_Space (what `char::is_whitespace`
/// tests).
pub open spec fn is_white_space(c: char) -> bool {
    let k = c as u32;
    ||| 9 <= k <= 13
    ||| k == 32
    ||| k == 0x85
    ||| k == 0xA0
    ||| k == 0x1680
    ||| 0x2000 <= k <= 0x200A
    ||| k == 0x2028
    ||| k == 0x2029
    ||| k == 0x202F
    ||| k == 0x205F
    ||| k == 0x3000
}

/// Whether `c` is white space.
pub fn char_is_white_space(c: char) -> (res: bool)
    ensures
        res == is_white_space(c),
{
    let k = c as u32;
    (9 <= k && k <= 13) || k == 32 || k == 0x85 || k == 0xA0 || k == 0x1680 || (0x2000 <= k && k <= 0x200A)
        || k == 0x2028 || k == 0x2029 || k == 0x202F || k == 0x205F || k == 0x3000
}

/// `s` without its leading white space.
pub open spec fn trim_start(s: Seq<char>) -> Seq<char>
    decreases s.len(),
{
    if s.len() > 0 && is_white_space(s[0]) {
        trim_start(s.drop_first())
    } else {
        s
    }
}

/// `s` without its trailing white space.
pub open spec fn trim_end(s: Seq<char>) -> Seq<char>
    decreases s.len(),
{
    if s.len() > 0 && is_white_space(s.last()) {
        trim_end(s.drop_last())
    } else {
        s
    }
}

/// `s` without leading and trailing white space (what `str::trim` returns).
pub open spec fn trim(s: Seq<char>) -> Seq<char> {
    trim_end(trim_start(s))
}

/// Index of the first `c` in `s`, if any.
pub open spec fn first_index_of(s: Seq<char>, c: char) -> Option<int>
    decreases s.len(),
{
    if s.len() == 0 {
        None
    } else if s[0] == c {
        Some(0)
    } else {
        match first_index_of(s.drop_first(), c) {
            Some(k) => Some(k + 1),
            None => None,
        }
    }
}

/// The numerator and denominator of a probed frame rate: the trimmed text
/// split at its first `/`; nothing when it holds no `/`.
pub open spec fn rate_parts(raw: Seq<char>) -> Option<(Seq<char>, Seq<char>)> {
    let t = trim(raw);
    match first_index_of(t, '/') {
        Some(k) => Some((t.take(k), t.skip(k + 1))),
        None => None,
    }
}

/// Bounds of the trimmed part of `chars`.
fn trim_bounds(chars: &Vec<char>) -> (res: (usize, usize))
    ensures
        res.0 <= res.1 <= chars@.len(),
        chars@.subrange(res.0 as int, res.1 as int) == trim(chars@),
{
    let n = chars.len();
    let mut lo: usize = 0;
    assert(chars@.subrange(0, n as int) =~= chars@);
    while lo < n && char_is_white_space(chars[lo])
        invariant
            lo <= n == chars@.len(),
            trim_start(chars@) == trim_start(chars@.subrange(lo as int, n as int)),
        decreases n - lo,
    {
        let ghost t = chars@.subrange(lo as int, n as int);
        assert(t.drop_first() =~= chars@.subrange(lo + 1, n as int));
        lo = lo + 1;
    }
    let ghost t = chars@.subrange(lo as int, n as int);
    assert(trim_start(t) == t);
    let mut hi: usize = n;
    assert(t.take((hi - lo) as int) =~= t);
    while hi > lo && char_is_white_space(chars[hi - 1])
        invariant
            lo <= hi <= n == chars@.len(),
            t == chars@.subrange(lo as int, n as int),
            trim_end(t) == trim_end(t.take((hi - lo) as int)),
        decreases hi - lo,
    {
        let ghost u = t.take((hi - lo) as int);
        assert(u.drop_last() =~= t.take((hi - 1 - lo) as int));
        assert(u.last() == chars@[hi - 1]);
        hi = hi - 1;
    }
    let ghost u = t.take((hi - lo) as int);
    assert(trim_end(u) == u);
    assert(u =~= chars@.subrange(lo as int, hi as int));
    (lo, hi)
}

/// Splits a probed frame rate such as `30000/1001` into its two numbers, as
/// text.
pub fn split_rate(raw: &str) -> (res: Option<(String, String)>)
    ensures
        match rate_parts(raw@) {
            Some(p) => res matches Some(r) && r.0@ == p.0 && r.1@ == p.1,
            None => res is None,
        },
{
    let chars = chars_of(raw);
    let (lo, hi) = trim_bounds(&chars);
    let ghost t = chars@.subrange(lo as int, hi as int);
    let mut k: usize = lo;
    while k < hi
        invariant
            lo <= k <= hi <= chars@.len(),
            chars@ == raw@,
            t == chars@.subrange(lo as int, hi as int),
            t == trim(raw@),
            forall|j: int| lo <= j < k ==> chars@[j] != '/',
            first_index_of(t, '/') == match first_index_of(chars@.subrange(k as int, hi as int), '/') {
                Some(i) => Some(i + (k - lo)),
                None => None::<int>,
            },
        decreases hi - k,
    {
        let ghost w = chars@.subrange(k as int, hi as int);
        assert(w.drop_first() =~= chars@.subrange(k + 1, hi as int));
        if chars[k] == '/' {
            assert(first_index_of(t, '/') == Some((k - lo) as int));
            let num = string_of_range(&chars, lo, k, false);
            let den = string_of_range(&chars, k + 1, hi, false);
            assert(chars@.subrange(lo as int, k as int) =~= t.take((k - lo) as int));
            assert(chars@.subrange(k + 1, hi as int) =~= t.skip((k - lo) + 1));
            return Some((num, den));
        }
        k = k + 1;
    }
    None
}

/// `s` is made of white space only.
pub open spec fn all_white(s: Seq<char>) -> bool {
    forall|i: int| 0 <= i < s.len() ==> is_white_space(#[trigger] s[i])
}

proof fn lemma_trim_start_white(w: Seq<char>, t: Seq<char>)
    requires
        all_white(w),
        t.len() == 0 || !is_white_space(t[0]),
    ensures
        trim_start(w + t) == t,
    decreases w.len(),
{
    if w.len() == 0 {
        assert(w + t =~= t);
    } else {
        assert((w + t).drop_first() =~= w.drop_first() + t);
        assert((w + t)[0] == w[0]);
        lemma_trim_start_white(w.drop_first(), t);
    }
}

proof fn lemma_trim_end_white(t: Seq<char>, w: Seq<char>)
    requires
        all_white(w),
        t.len() == 0 || !is_white_space(t.last()),
    ensures
        trim_end(t + w) == t,
    decreases w.len(),
{
    if w.len() == 0 {
        assert(t + w =~= t);
    } else {
        assert((t + w).drop_last() =~= t + w.drop_last());
        assert((t + w).last() == w.last());
        lemma_trim_end_white(t, w.drop_last());
    }
}

proof fn lemma_first_slash(a: Seq<char>, b: Seq<char>)
    requires
        forall|i: int| 0 <= i < a.len() ==> a[i] != '/',
    ensures
        first_index_of(a + seq!['/'] + b, '/') == Some(a.len() as int),
    decreases a.len(),
{
    let s = a + seq!['/'] + b;
    if a.len() > 0 {
        assert(s.drop_first() =~= a.drop_first() + seq!['/'] + b);
        assert(s[0] == a[0]);
        lemma_first_slash(a.drop_first(), b);
    } else {
        assert(s[0] == '/');
    }
}

proof fn lemma_no_slash(s: Seq<char>)
    requires
        forall|i: int| 0 <= i < s.len() ==> s[i] != '/',
    ensures
        first_index_of(s, '/') is None,
    decreases s.len(),
{
    if s.len() > 0 {
        assert(forall|i: int| 0 <= i < s.drop_first().len() ==> s.drop_first()[i] == s[i + 1]);
        lemma_no_slash(s.drop_first());
    }
}

/// A probed rate `numerator/denominator`, with any white space around it, is
/// read as its two parts: the text before the first `/` and the text after it.
pub proof fn lemma_rate_parts_split(lead: Seq<char>, num: Seq<char>, den: Seq<char>, trail: Seq<char>)
    requires
        all_white(lead),
        all_white(trail),
        forall|i: int| 0 <= i < num.len() ==> num[i] != '/',
        num.len() == 0 || !is_white_space(num[0]),
        den.len() == 0 || !is_white_space(den.last()),
    ensures
        rate_parts(lead + num + seq!['/'] + den + trail) == Some((num, den)),
{
    let core = num + seq!['/'] + den;
    assert(!is_white_space('/'));
    assert(core.len() == 0 || !is_white_space(core[0])) by {
        if num.len() > 0 {
            assert(core[0] == num[0]);
        } else {
            assert(core[0] == '/');
        }
    }
    assert(!is_white_space(core.last())) by {
        if den.len() > 0 {
            assert(core.last() == den.last());
        } else {
            assert(core.last() == '/');
        }
    }
    assert(lead + num + seq!['/'] + den + trail =~= lead + (core + trail));
    lemma_trim_start_white(lead, core + trail);
    assert((core + trail).len() == 0 || !is_white_space((core + trail)[0])) by {
        assert((core + trail)[0] == core[0]);
    }
    lemma_trim_end_white(core, trail);
    lemma_first_slash(num, den);
    assert(core.take(num.len() as int) =~= num);
    assert(core.skip(num.len() + 1int) =~= den);
}

/// Without any `/`, no rate is read.
pub proof fn lemma_rate_parts_need_slash(raw: Seq<char>)
    requires
        forall|i: int| 0 <= i < raw.len() ==> raw[i] != '/',
    ensures
        rate_parts(raw) is None,
{
    let t = trim(raw);
    lemma_trim_subrange(raw);
    assert forall|i: int| 0 <= i < t.len() implies t[i] != '/' by {
        let (lo, hi) = choose|lo: int, hi: int| 0 <= lo <= hi <= raw.len() && t == raw.subrange(lo, hi);
        assert(t[i] == raw[lo + i]);
    }
    lemma_no_slash(t);
}

proof fn lemma_trim_start_subrange(s: Seq<char>)
    ensures
        exists|lo: int| 0 <= lo <= s.len() && trim_start(s) == s.subrange(lo, s.len() as int),
    decreases s.len(),
{
    if s.len() > 0 && is_white_space(s[0]) {
        lemma_trim_start_subrange(s.drop_first());
        let lo = choose|lo: int|
            0 <= lo <= s.drop_first().len() && trim_start(s.drop_first()) == s.drop_first().subrange(
                lo,
                s.drop_first().len() as int,
            );
        assert(s.drop_first().subrange(lo, s.drop_first().len() as int) =~= s.subrange(lo + 1, s.len() as int));
    } else {
        assert(s.subrange(0, s.len() as int) =~= s);
    }
}

proof fn lemma_trim_end_subrange(s: Seq<char>)
    ensures
        exists|hi: int| 0 <= hi <= s.len() && trim_end(s) == s.subrange(0, hi),
    decreases s.len(),
{
    if s.len() > 0 && is_white_space(s.last()) {
        lemma_trim_end_subrange(s.drop_last());
        let hi = choose|hi: int| 0 <= hi <= s.drop_last().len() && trim_end(s.drop_last()) == s.drop_last().subrange(0, hi);
        assert(s.drop_last().subrange(0, hi) =~= s.subrange(0, hi));
    } else {
        assert(s.subrange(0, s.len() as int) =~= s);
    }
}

proof fn lemma_trim_subrange(s: Seq<char>)
    ensures
        exists|lo: int, hi: int| 0 <= lo <= hi <= s.len() && trim(s) == s.subrange(lo, hi),
{
    lemma_trim_start_subrange(s);
    let lo = choose|lo: int| 0 <= lo <= s.len() && trim_start(s) == s.subrange(lo, s.len() as int);
    let u = trim_start(s);
    lemma_trim_end_subrange(u);
    let hi = choose|hi: int| 0 <= hi <= u.len() && trim_end(u) == u.subrange(0, hi);
    assert(u.subrange(0, hi) =~= s.subrange(lo, lo + hi));
}

} // verus!
