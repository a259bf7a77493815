//! Reading the command line and choosing what to show.
use vstd::prelude::*;
use crate::media::MediaType;
use crate::text::same_text;

verus! {

/// What the command line asks for.
pub struct Options {
    /// Draw with the second character set.
    pub unicode: bool,
    /// Open the search screen instead of a path.
    pub youtube: bool,
    /// The path to show; the last argument that is not a flag.
    pub path: String,
}

/// `a` selects the second character set.
pub open spec fn is_set2_flag(a: Seq<char>) -> bool {
    a == "-2"@ || a == "--set2"@
}

/// `a` selects the search screen.
pub open spec fn is_youtube_flag(a: Seq<char>) -> bool {
    a == "-yt"@ || a == "--youtube"@
}

/// The settings after reading `args[1..n]`: the two flags, and the last
/// argument that is neither flag as the path.
pub open spec fn read_args(args: Seq<Seq<char>>, n: int) -> (bool, bool, Seq<char>)
    decreases n,
{
    if n <= 1 {
        (false, false, Seq::empty())
    } else {
        let (u, y, p) = read_args(args, n - 1);
        let a = args[n - 1];
        if is_set2_flag(a) {
            (true, y, p)
        } else if is_youtube_flag(a) {
            (u, true, p)
        } else {
            (u, y, a)
        }
    }
}

/// The text of each argument.
pub open spec fn args_view(args: Seq<String>) -> Seq<Seq<char>> {
    args.map_values(|a: String| a@)
}

/// Reads the arguments, the program's name first. Nothing is read when there
/// is no argument after the program's name.
pub fn parse_args(args: &Vec<String>) -> (res: Option<Options>)
    ensures
        args@.len() < 2 ==> res is None,
        args@.len() >= 2 ==> (res matches Some(o) && {
            let (u, y, p) = read_args(args_view(args@), args@.len() as int);
            o.unicode == u && o.youtube == y && o.path@ == p
        }),
{
    if args.len() < 2 {
        return None;
    }
    let ghost av = args_view(args@);
    let mut unicode = false;
    let mut youtube = false;
    let mut path = String::new();
    let mut i: usize = 1;
    while i < args.len()
        invariant
            1 <= i <= args@.len(),
            av == args_view(args@),
            (unicode, youtube, path@) == read_args(av, i as int),
        decreases args@.len() - i,
    {
        let a = args[i].as_str();
        assert(av[i as int] == a@);
        if same_text(a, "-2") || same_text(a, "--set2") {
            unicode = true;
        } else if same_text(a, "-yt") || same_text(a, "--youtube") {
            youtube = true;
        } else {
            path = args[i].clone();
        }
        i = i + 1;
    }
    Some(Options { unicode, youtube, path })
}

/// What the program shows.
#[derive(Debug, Clone, Copy, PartialEq, Eq, Structural)]
pub enum Mode {
    /// Browse a folder, or show a single picture.
    Gallery,
    /// Play a video.
    Video,
    /// The search screen.
    YouTube,
    /// The path is neither a folder, a picture nor a video.
    Unsupported,
}

/// The mode for the options and the media type of their path.
pub open spec fn mode_spec(youtube: bool, media: MediaType) -> Mode {
    if youtube {
        Mode::YouTube
    } else {
        match media {
            MediaType::Image => Mode::Gallery,
            MediaType::Folder => Mode::Gallery,
            MediaType::Video => Mode::Video,
            MediaType::Unknown => Mode::Unsupported,
        }
    }
}

/// Chooses what to show: the search screen when asked for, else by the type of
/// the path.
pub fn launch_mode(options: &Options, media: MediaType) -> (res: Mode)
    ensures
        res == mode_spec(options.youtube, media),
{
    if options.youtube {
        Mode::YouTube
    } else {
        match media {
            MediaType::Image | MediaType::Folder => Mode::Gallery,
            MediaType::Video => Mode::Video,
            MediaType::Unknown => Mode::Unsupported,
        }
    }
}

/// A flag anywhere turns its setting on for good, and the path is the last
/// argument that is not a flag (or empty when there is none).
pub proof fn lemma_flags_stick(args: Seq<Seq<char>>, n: int, m: int)
    requires
        1 <= m <= n,
    ensures
        read_args(args, m).0 ==> read_args(args, n).0,
        read_args(args, m).1 ==> read_args(args, n).1,
    decreases n - m,
{
    if n > m {
        lemma_flags_stick(args, n - 1, m);
    }
}

/// When the last argument is not a flag, it is the path.
pub proof fn lemma_last_path_wins(args: Seq<Seq<char>>, n: int)
    requires
        n >= 2,
        !is_set2_flag(args[n - 1]),
        !is_youtube_flag(args[n - 1]),
    ensures
        read_args(args, n).2 == args[n - 1],
{
}

} // verus!
