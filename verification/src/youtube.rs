//! The search screen: the search command, the reading of its listing, and the
//! screen's reaction to keys.
use vstd::prelude::*;
use crate::keys::{KeyCodes, NEWLINE, NO_KEY, QUIT, TAB};
use crate::text::{
    ascii_only, char_from_u32, chars_of, decimal, is_char_code, pop_char, push_char, push_decimal,
    push_str, string_of_range,
};

verus! {

/// The pieces of `s` that end at each line feed (the line feed kept), and the
/// rest after the last one when it is not empty.
pub open spec fn pieces(s: Seq<char>) -> Seq<Seq<char>>
    decreases s.len(),
{
    if s.len() == 0 {
        seq![]
    } else {
        let p = pieces(s.drop_last());
        let c = s.last();
        if p.len() == 0 || p.last().last() == '\n' {
            p.push(seq![c])
        } else {
            p.update(p.len() - 1, p.last().push(c))
        }
    }
}

/// A piece without its line ending: a final line feed, and then a carriage
/// return before it, are removed (as `str::lines` does).
pub open spec fn line_of(piece: Seq<char>) -> Seq<char> {
    if piece.len() > 0 && piece.last() == '\n' {
        let q = piece.drop_last();
        if q.len() > 0 && q.last() == '\r' {
            q.drop_last()
        } else {
            q
        }
    } else {
        piece
    }
}

/// The lines of `s`.
pub open spec fn lines(s: Seq<char>) -> Seq<Seq<char>> {
    pieces(s).map_values(|p: Seq<char>| line_of(p))
}

/// Index of the last `c` in `s`, if any.
pub open spec fn last_index_of(s: Seq<char>, c: char) -> Option<int>
    decreases s.len(),
{
    if s.len() == 0 {
        None
    } else if s.last() == c {
        Some(s.len() - 1)
    } else {
        last_index_of(s.drop_last(), c)
    }
}

/// The entry a listing line stands for: split at its last `|` into the title,
/// kept to its ASCII characters, and the address; no entry without a `|`.
pub open spec fn entry_of(line: Seq<char>) -> Option<(Seq<char>, Seq<char>)> {
    match last_index_of(line, '|') {
        Some(k) => Some((ascii_only(line.take(k)), line.skip(k + 1))),
        None => None,
    }
}

/// The entries of the pieces `ps`, in order.
pub open spec fn entries_of(ps: Seq<Seq<char>>) -> Seq<(Seq<char>, Seq<char>)>
    decreases ps.len(),
{
    if ps.len() == 0 {
        seq![]
    } else {
        let rest = entries_of(ps.drop_last());
        match entry_of(line_of(ps.last())) {
            Some(e) => rest.push(e),
            None => rest,
        }
    }
}

/// The videos a search listing names: one entry per line that holds a `|`.
pub open spec fn listing(s: Seq<char>) -> Seq<(Seq<char>, Seq<char>)> {
    entries_of(pieces(s))
}

/// The text of a list of titles and addresses.
pub open spec fn entries_view(v: Seq<(String, String)>) -> Seq<(Seq<char>, Seq<char>)> {
    v.map_values(|e: (String, String)| (e.0@, e.1@))
}

/// The entry of the line `chars[0..n]`.
fn entry_of_line(chars: &Vec<char>, n: usize) -> (res: Option<(String, String)>)
    requires
        n <= chars@.len(),
    ensures
        match entry_of(chars@.take(n as int)) {
            Some(e) => res matches Some(r) && r.0@ == e.0 && r.1@ == e.1,
            None => res is None,
        },
{
    let ghost line = chars@.take(n as int);
    let mut j: usize = n;
    assert(line.take(n as int) =~= line);
    while j > 0
        invariant
            j <= n <= chars@.len(),
            line == chars@.take(n as int),
            last_index_of(line, '|') == last_index_of(line.take(j as int), '|'),
        decreases j,
    {
        assert(line.take(j as int).drop_last() =~= line.take(j - 1));
        assert(line.take(j as int).last() == chars@[j - 1]);
        if chars[j - 1] == '|' {
            let k = j - 1;
            assert(last_index_of(line, '|') == Some(k as int));
            let title = string_of_range(chars, 0, k, true);
            let url = string_of_range(chars, k + 1, n, false);
            assert(chars@.subrange(0, k as int) =~= line.take(k as int));
            assert(chars@.subrange(k + 1, n as int) =~= line.skip(k + 1));
            return Some((title, url));
        }
        j = j - 1;
    }
    assert(line.take(0) =~= Seq::<char>::empty());
    None
}

/// Length of the line in a piece `chars[0..n]` (without its line ending).
fn line_len(chars: &Vec<char>, n: usize) -> (res: usize)
    requires
        n <= chars@.len(),
    ensures
        res <= n,
        chars@.take(res as int) == line_of(chars@.take(n as int)),
{
    let ghost p = chars@.take(n as int);
    if n > 0 && chars[n - 1] == '\n' {
        assert(p.drop_last() =~= chars@.take(n - 1));
        if n > 1 && chars[n - 2] == '\r' {
            assert(chars@.take(n - 1).drop_last() =~= chars@.take(n - 2));
            n - 2
        } else {
            n - 1
        }
    } else {
        assert(chars@.take(n as int) =~= p);
        n
    }
}

/// Appends the entry of the piece `cur`, if it has one.
fn add_entry(res: &mut Vec<(String, String)>, cur: &Vec<char>)
    ensures
        entries_view(final(res)@) == match entry_of(line_of(cur@)) {
            Some(e) => entries_view(old(res)@).push(e),
            None => entries_view(old(res)@),
        },
{
    let n = line_len(cur, cur.len());
    assert(cur@.take(cur@.len() as int) =~= cur@);
    match entry_of_line(cur, n) {
        Some(e) => {
            res.push(e);
            assert(entries_view(res@) =~= entries_view(old(res)@).push((e.0@, e.1@)));
        },
        None => {},
    }
}

/// Reads a search listing: for each line holding a `|`, the title before the
/// last `|` (ASCII characters only) and the address after it.
pub fn parse_listing(output: &str) -> (res: Vec<(String, String)>)
    ensures
        entries_view(res@) == listing(output@),
{
    let chars = chars_of(output);
    let mut res: Vec<(String, String)> = Vec::new();
    let mut cur: Vec<char> = Vec::new();
    let ghost mut done: Seq<Seq<char>> = seq![];
    let mut i: usize = 0;
    while i < chars.len()
        invariant
            chars@ == output@,
            i <= chars@.len(),
            pieces(chars@.take(i as int)) == (if cur@.len() == 0 { done } else { done.push(cur@) }),
            forall|j: int| 0 <= j < done.len() ==> (#[trigger] done[j]).len() > 0 && done[j].last() == '\n',
            forall|j: int| 0 <= j < cur@.len() ==> (#[trigger] cur@[j]) != '\n',
            entries_view(res@) == entries_of(done),
        decreases chars@.len() - i,
    {
        let c = chars[i];
        let ghost before = cur@;
        assert(chars@.take(i + 1).drop_last() =~= chars@.take(i as int));
        assert(chars@.take(i + 1).last() == c);
        cur.push(c);
        proof {
            if before.len() == 0 {
                if done.len() > 0 {
                    assert(done[done.len() - 1].last() == '\n');
                }
                assert(cur@ =~= seq![c]);
                assert(pieces(chars@.take(i + 1)) =~= done.push(cur@));
            } else {
                let p = done.push(before);
                assert(p.last() == before);
                assert(before.last() != '\n');
                assert(p.last().last() != '\n');
                assert(p.update(p.len() - 1, p.last().push(c)) =~= done.push(cur@));
                assert(pieces(chars@.take(i + 1)) == p.update(p.len() - 1, p.last().push(c)));
                assert(pieces(chars@.take(i + 1)) =~= done.push(cur@));
            }
        }
        if c == '\n' {
            add_entry(&mut res, &cur);
            proof {
                assert(done.push(cur@).drop_last() =~= done);
                done = done.push(cur@);
            }
            cur = Vec::new();
        }
        i = i + 1;
    }
    assert(chars@.take(chars@.len() as int) =~= chars@);
    if cur.len() > 0 {
        add_entry(&mut res, &cur);
        proof {
            assert(done.push(cur@).drop_last() =~= done);
        }
    }
    res
}


/// The first and last position of the listing page `page` of `page_size`
/// entries, counted from one.
pub open spec fn page_bounds(page: nat, page_size: nat) -> (int, int) {
    let start: int = (page * page_size + 1) as int;
    (start, start + page_size - 1)
}

/// The command that lists page `page` of the search results for `query`, one
/// `title|address` line per video.
pub open spec fn search_command_text(query: Seq<char>, page: nat, page_size: nat) -> Seq<char> {
    let (start, end) = page_bounds(page, page_size);
    "yt-dlp \"ytsearch"@ + decimal(end as nat) + ":"@ + query + "\" --playlist-items "@
        + decimal(start as nat) + ":"@ + decimal(end as nat)
        + " --print \"%(title)s|%(webpage_url)s\""@
}

/// The command that searches for `query` and prints page `page` of
/// `page_size` results.
pub fn search_command(query: &str, page: usize, page_size: usize) -> (res: String)
    requires
        page * page_size + 1 + page_size <= usize::MAX,
    ensures
        res@ == search_command_text(query@, page as nat, page_size as nat),
{
    proof {
        assert(page * page_size <= page * page_size + 1 + page_size);
    }
    let start: usize = page * page_size + 1;
    let end: usize = start + page_size - 1;
    let mut res = String::new();
    push_str(&mut res, "yt-dlp \"ytsearch");
    push_decimal(&mut res, end as u64);
    push_str(&mut res, ":");
    push_str(&mut res, query);
    push_str(&mut res, "\" --playlist-items ");
    push_decimal(&mut res, start as u64);
    push_str(&mut res, ":");
    push_decimal(&mut res, end as u64);
    push_str(&mut res, " --print \"%(title)s|%(webpage_url)s\"");
    res
}

/// The command that downloads the video at `url` into the download folder.
pub open spec fn download_command_text(url: Seq<char>) -> Seq<char> {
    "yt-dlp -f \"ba+bv/b\" -o \"vidimg_yt_dlp/yt.%(ext)s\" \""@ + url + "\""@
}

/// The command that downloads the video at `url`.
pub fn download_command(url: &str) -> (res: String)
    ensures
        res@ == download_command_text(url@),
{
    let mut res = String::new();
    push_str(&mut res, "yt-dlp -f \"ba+bv/b\" -o \"vidimg_yt_dlp/yt.%(ext)s\" \"");
    push_str(&mut res, url);
    push_str(&mut res, "\"");
    res
}

/// What the search screen does after a key.
#[derive(Debug, Clone, Copy, PartialEq, Eq, Structural)]
pub enum SearchAction {
    /// No key and nothing new: wait a moment and poll again.
    Wait,
    /// Leave the screen.
    Quit,
    /// Nothing to act on: poll again without redrawing.
    Skip,
    /// Download and play result number `n`, then redraw.
    Download(usize),
    /// Run the search for the query, hand its results over, then redraw.
    Search,
    /// Redraw the screen.
    Redraw,
}

/// The search screen's state: typing a query or choosing a result, the
/// query, the highlighted result, the number of results, and whether fresh
/// results wait to be shown.
pub struct SearchView {
    pub searching: bool,
    pub query: Seq<char>,
    pub curs_pos: usize,
    pub results_len: usize,
    pub update: bool,
}

/// The cursor after `key`: down moves to the next result and up to the
/// previous one, both wrapping around; nothing moves without results.
pub open spec fn moved_cursor(curs: usize, len: usize, key: i32, keys: KeyCodes) -> usize {
    if len > 0 {
        if key == keys.down {
            ((curs + 1) % (len as int)) as usize
        } else if key == keys.up {
            if curs == 0 {
                (len - 1) as usize
            } else {
                (curs - 1) as usize
            }
        } else {
            curs
        }
    } else {
        curs
    }
}

/// The query after `key` while typing it: backspace removes the last
/// character, any other key but Enter and "no key" adds its character.
pub open spec fn edited_query(query: Seq<char>, key: i32, keys: KeyCodes) -> Seq<char> {
    if key == keys.backspace {
        if query.len() > 0 {
            query.drop_last()
        } else {
            query
        }
    } else if key == NO_KEY {
        query
    } else {
        query.push(char_with_code(key as int))
    }
}

/// The character whose code is `k`.
pub open spec fn char_with_code(k: int) -> char {
    choose|c: char| #[trigger] char_code(c) == k
}

/// The code of `c`.
pub open spec fn char_code(c: char) -> int {
    c as int
}

/// The next state and action of the search screen for `key`.
pub open spec fn search_step(s: SearchView, key: i32, keys: KeyCodes) -> (SearchView, SearchAction) {
    if key == NO_KEY && !s.update {
        (s, SearchAction::Wait)
    } else {
        let s1 = SearchView { update: false, ..s };
        let moved = SearchView { curs_pos: moved_cursor(s.curs_pos, s.results_len, key, keys), ..s1 };
        if !s.searching {
            if key == TAB {
                (SearchView { searching: true, ..moved }, SearchAction::Redraw)
            } else if key == QUIT {
                (s1, SearchAction::Quit)
            } else if key == NEWLINE || key == keys.enter {
                if s.results_len == 0 {
                    (s1, SearchAction::Skip)
                } else {
                    (moved, SearchAction::Download(s.curs_pos))
                }
            } else {
                (moved, SearchAction::Redraw)
            }
        } else if key == keys.enter || key == NEWLINE {
            (SearchView { searching: false, ..s1 }, SearchAction::Search)
        } else {
            (SearchView { query: edited_query(s.query, key, keys), ..s1 }, SearchAction::Redraw)
        }
    }
}

/// The key can be handled: while typing, a key that edits the query must be
/// the code of a character.
pub open spec fn search_key_ok(s: SearchView, key: i32, keys: KeyCodes) -> bool {
    (s.searching && !(key == NO_KEY && !s.update) && key != keys.enter && key != NEWLINE
        && key != keys.backspace && key != NO_KEY) ==> is_char_code(key as int)
}

/// The search screen.
pub struct SearchScreen {
    searching: bool,
    query: String,
    curs_pos: usize,
    results_len: usize,
    update: bool,
}

impl View for SearchScreen {
    type V = SearchView;

    closed spec fn view(&self) -> SearchView {
        SearchView {
            searching: self.searching,
            query: self.query@,
            curs_pos: self.curs_pos,
            results_len: self.results_len,
            update: self.update,
        }
    }
}

impl SearchScreen {
    /// A screen choosing among no results, with an empty query.
    pub fn new() -> (res: SearchScreen)
        ensures
            res@ == (SearchView {
                searching: false,
                query: Seq::empty(),
                curs_pos: 0,
                results_len: 0,
                update: false,
            }),
    {
        SearchScreen { searching: false, query: String::new(), curs_pos: 0, results_len: 0, update: false }
    }

    /// Whether the query is being typed.
    pub fn searching(&self) -> (res: bool)
        ensures
            res == self@.searching,
    {
        self.searching
    }

    /// The query typed so far.
    pub fn query(&self) -> (res: &str)
        ensures
            res@ == self@.query,
    {
        self.query.as_str()
    }

    /// The highlighted result.
    pub fn curs_pos(&self) -> (res: usize)
        ensures
            res == self@.curs_pos,
    {
        self.curs_pos
    }

    /// Whether `key` can be handled in this state (see `search_key_ok`).
    pub fn accepts_key(&self, key: i32, keys: &KeyCodes) -> (res: bool)
        ensures
            res == search_key_ok(self@, key, *keys),
    {
        let edits = self.searching && !(key == NO_KEY && !self.update) && key != keys.enter
            && key != NEWLINE && key != keys.backspace && key != NO_KEY;
        if edits {
            key >= 0 && char_from_u32(key as u32).is_some()
        } else {
            true
        }
    }

    /// Takes `n` fresh results; they are shown at the next redraw.
    pub fn set_results(&mut self, n: usize)
        ensures
            final(self)@ == (SearchView { results_len: n, update: true, ..old(self)@ }),
    {
        self.results_len = n;
        self.update = true;
    }

    fn move_cursor(&mut self, key: i32, keys: &KeyCodes)
        ensures
            final(self)@ == (SearchView {
                curs_pos: moved_cursor(old(self)@.curs_pos, old(self)@.results_len, key, *keys),
                ..old(self)@
            }),
    {
        if self.results_len > 0 {
            if key == keys.down {
                let len = self.results_len;
                let c = self.curs_pos;
                proof {
                    vstd::arithmetic::div_mod::lemma_add_mod_noop(c as int, 1, len as int);
                    vstd::arithmetic::div_mod::lemma_mod_bound(c as int, len as int);
                    if len == 1 {
                        vstd::arithmetic::div_mod::lemma_mod_bound(c + 1, len as int);
                        vstd::arithmetic::div_mod::lemma_mod_bound((c as int) % (len as int) + 1int % (len as int), len as int);
                    } else {
                        vstd::arithmetic::div_mod::lemma_small_mod(1, len as nat);
                    }
                }
                self.curs_pos = (c % len + 1) % len;
            } else if key == keys.up {
                if self.curs_pos == 0 {
                    self.curs_pos = self.results_len - 1;
                } else {
                    self.curs_pos = self.curs_pos - 1;
                }
            }
        }
    }

    /// Reacts to `key`.
    pub fn on_key(&mut self, key: i32, keys: &KeyCodes) -> (res: SearchAction)
        requires
            search_key_ok(old(self)@, key, *keys),
        ensures
            (final(self)@, res) == search_step(old(self)@, key, *keys),
    {
        if key == NO_KEY && !self.update {
            return SearchAction::Wait;
        }
        self.update = false;
        if !self.searching {
            if key == TAB {
                self.searching = true;
                self.move_cursor(key, keys);
                SearchAction::Redraw
            } else if key == QUIT {
                SearchAction::Quit
            } else if key == NEWLINE || key == keys.enter {
                if self.results_len == 0 {
                    SearchAction::Skip
                } else {
                    let chosen = self.curs_pos;
                    self.move_cursor(key, keys);
                    SearchAction::Download(chosen)
                }
            } else {
                self.move_cursor(key, keys);
                SearchAction::Redraw
            }
        } else if key == keys.enter || key == NEWLINE {
            self.searching = false;
            SearchAction::Search
        } else if key == keys.backspace {
            let _ = pop_char(&mut self.query);
            SearchAction::Redraw
        } else if key == NO_KEY {
            SearchAction::Redraw
        } else {
            assert(key >= 0);
            let n: u32 = key as u32;
            assert(n as int == key as int);
            let c = char_from_u32(n);
            match c {
                Some(ch) => {
                    proof {
                                                assert(char_code(ch) == key as int);
                        let other = char_with_code(key as int);
                        assert(char_code(other) == key as int);
                        assert(ch == other);
                    }
                    push_char(&mut self.query, ch);
                },
                None => {},
            }
            SearchAction::Redraw
        }
    }
}

/// With at least one result and the cursor on one of them, moving the cursor
/// keeps it on one of them.
pub proof fn lemma_cursor_stays_on_results(curs: usize, len: usize, key: i32, keys: KeyCodes)
    requires
        curs < len,
    ensures
        moved_cursor(curs, len, key, keys) < len,
{
    if key == keys.down {
        vstd::arithmetic::div_mod::lemma_mod_bound(curs + 1, len as int);
    }
}

/// Down then up, or up then down, brings the cursor back to the same result.
pub proof fn lemma_down_up_returns(curs: usize, len: usize, keys: KeyCodes)
    requires
        keys.well_formed(),
        curs < len,
    ensures
        moved_cursor(moved_cursor(curs, len, keys.down, keys), len, keys.up, keys) == curs,
        moved_cursor(moved_cursor(curs, len, keys.up, keys), len, keys.down, keys) == curs,
{
    if curs + 1 < len {
        vstd::arithmetic::div_mod::lemma_small_mod((curs + 1) as nat, len as nat);
    } else {
        vstd::arithmetic::div_mod::lemma_mod_self_0(len as int);
    }
    if curs == 0 {
        vstd::arithmetic::div_mod::lemma_mod_self_0(len as int);
    } else {
        vstd::arithmetic::div_mod::lemma_small_mod(curs as nat, len as nat);
    }
}

/// While typing, a character followed by backspace leaves the query as it
/// was.
pub proof fn lemma_type_then_erase(s: SearchView, key: i32, keys: KeyCodes)
    requires
        keys.well_formed(),
        s.searching,
        0 <= key < 256,
        key != NEWLINE,
        key != NO_KEY,
    ensures
        ({
            let (t, a) = search_step(s, key, keys);
            let (u, b) = search_step(t, keys.backspace, keys);
            &&& a == SearchAction::Redraw
            &&& b == SearchAction::Redraw
            &&& u == SearchView { update: false, ..s }
        }),
{
    let (t, a) = search_step(s, key, keys);
    assert(t.query == s.query.push(char_with_code(key as int)));
    assert(t.query.drop_last() =~= s.query);
}

/// With no key and nothing new to show, nothing changes and the screen waits.
pub proof fn lemma_idle_waits(s: SearchView, keys: KeyCodes)
    requires
        !s.update,
    ensures
        search_step(s, NO_KEY, keys) == (s, SearchAction::Wait),
{
}

/// Enter on an empty result list does nothing but clear the fresh-results
/// mark; on a non-empty one it downloads the highlighted result.
pub proof fn lemma_enter_downloads_highlighted(s: SearchView, keys: KeyCodes)
    requires
        keys.well_formed(),
        !s.searching,
    ensures
        s.results_len == 0 ==> search_step(s, NEWLINE, keys) == (SearchView { update: false, ..s }, SearchAction::Skip),
        s.results_len > 0 ==> search_step(s, NEWLINE, keys).1 == SearchAction::Download(s.curs_pos),
{
}

/// Every title of a listing is made of ASCII characters only.
pub proof fn lemma_listing_titles_ascii(s: Seq<char>)
    ensures
        forall|i: int, j: int|
            0 <= i < listing(s).len() && 0 <= j < listing(s)[i].0.len()
                ==> crate::text::is_ascii_char(#[trigger] listing(s)[i].0[j]),
{
    lemma_entries_ascii(pieces(s));
}

proof fn lemma_entries_ascii(ps: Seq<Seq<char>>)
    ensures
        forall|i: int, j: int|
            0 <= i < entries_of(ps).len() && 0 <= j < entries_of(ps)[i].0.len()
                ==> crate::text::is_ascii_char(#[trigger] entries_of(ps)[i].0[j]),
    decreases ps.len(),
{
    if ps.len() > 0 {
        lemma_entries_ascii(ps.drop_last());
        let rest = entries_of(ps.drop_last());
        match entry_of(line_of(ps.last())) {
            Some(e) => {
                let line = line_of(ps.last());
                let k = last_index_of(line, '|').unwrap();
                crate::text::lemma_ascii_only_idempotent(line.take(k));
                assert forall|i: int, j: int|
                    0 <= i < entries_of(ps).len() && 0 <= j < entries_of(ps)[i].0.len()
                        implies crate::text::is_ascii_char(#[trigger] entries_of(ps)[i].0[j]) by {
                    if i < rest.len() {
                        assert(entries_of(ps)[i] == rest[i]);
                    } else {
                        assert(entries_of(ps)[i] == e);
                    }
                }
            },
            None => {},
        }
    }
}

/// Enter while typing runs the search for the query as typed: the query,
/// the cursor and the results are kept, and only the typing mode and the
/// fresh-results mark change.
pub proof fn lemma_enter_searches_for_the_typed_query(s: SearchView, key: i32, keys: KeyCodes)
    requires
        keys.well_formed(),
        s.searching,
        key == NEWLINE || key == keys.enter,
    ensures
        ({
            let (t, a) = search_step(s, key, keys);
            &&& a == SearchAction::Search
            &&& t.query == s.query
            &&& !t.searching
            &&& !t.update
            &&& t.curs_pos == s.curs_pos
            &&& t.results_len == s.results_len
        }),
{
}

/// Outside typing, no key changes the query.
pub proof fn lemma_query_kept_outside_typing(s: SearchView, key: i32, keys: KeyCodes)
    requires
        !s.searching,
    ensures
        search_step(s, key, keys).0.query == s.query,
{
}

/// While typing, a key that is neither Enter, Backspace nor "no key" adds
/// exactly one character, the one with the key's code, at the end of the
/// query and keeps the rest; Backspace removes exactly the last character.
pub proof fn lemma_typing_edits_the_end(s: SearchView, key: i32, keys: KeyCodes)
    requires
        keys.well_formed(),
        s.searching,
        !s.update,
        key != NEWLINE,
        key != keys.enter,
        key != NO_KEY,
    ensures
        key != keys.backspace ==> ({
            let q = search_step(s, key, keys).0.query;
            &&& q.len() == s.query.len() + 1
            &&& q.take(s.query.len() as int) == s.query
            &&& q.last() == char_with_code(key as int)
        }),
        key == keys.backspace ==> search_step(s, key, keys).0.query == (if s.query.len() > 0 {
            s.query.take(s.query.len() - 1)
        } else {
            s.query
        }),
{
    if key != keys.backspace {
        let q = search_step(s, key, keys).0.query;
        assert(q.take(s.query.len() as int) =~= s.query);
    } else if s.query.len() > 0 {
        assert(s.query.drop_last() =~= s.query.take(s.query.len() - 1));
    }
}

/// The search command holds the query verbatim, spaces and all, between
/// `yt-dlp "ytsearch<last>:` and the rest of the command, and the rest does
/// not depend on the query; `<last>` is the last position of the page.
pub proof fn lemma_search_command_holds_query(q1: Seq<char>, q2: Seq<char>, page: nat, page_size: nat)
    ensures
        ({
            let last = page * page_size + page_size;
            let head = "yt-dlp \"ytsearch"@ + decimal(last) + ":"@;
            let tail = "\" --playlist-items "@ + decimal(page * page_size + 1) + ":"@ + decimal(last)
                + " --print \"%(title)s|%(webpage_url)s\""@;
            let c1 = search_command_text(q1, page, page_size);
            let c2 = search_command_text(q2, page, page_size);
            &&& c1.len() == head.len() + q1.len() + tail.len()
            &&& c1.take(head.len() as int) == head
            &&& c1.subrange(head.len() as int, (head.len() + q1.len()) as int) == q1
            &&& c1.skip((head.len() + q1.len()) as int) == tail
            &&& c1.skip((head.len() + q1.len()) as int) == c2.skip((head.len() + q2.len()) as int)
        }),
{
    let last = page * page_size + page_size;
    let head = "yt-dlp \"ytsearch"@ + decimal(last) + ":"@;
    let tail = "\" --playlist-items "@ + decimal(page * page_size + 1) + ":"@ + decimal(last)
        + " --print \"%(title)s|%(webpage_url)s\""@;
    assert((page * page_size + 1 + page_size - 1) as nat == last);
    let c1 = search_command_text(q1, page, page_size);
    let c2 = search_command_text(q2, page, page_size);
    assert(c1 =~= head + q1 + tail);
    assert(c2 =~= head + q2 + tail);
    assert(c1.take(head.len() as int) =~= head);
    assert(c1.subrange(head.len() as int, (head.len() + q1.len()) as int) =~= q1);
    assert(c1.skip((head.len() + q1.len()) as int) =~= tail);
    assert(c2.skip((head.len() + q2.len()) as int) =~= tail);
}

/// The download command holds the address verbatim between its fixed head and
/// its closing quote.
pub proof fn lemma_download_command_holds_url(url: Seq<char>)
    ensures
        ({
            let head = "yt-dlp -f \"ba+bv/b\" -o \"vidimg_yt_dlp/yt.%(ext)s\" \""@;
            let c = download_command_text(url);
            &&& c.len() == head.len() + url.len() + 1
            &&& c.take(head.len() as int) == head
            &&& c.subrange(head.len() as int, (head.len() + url.len()) as int) == url
        }),
{
    let head = "yt-dlp -f \"ba+bv/b\" -o \"vidimg_yt_dlp/yt.%(ext)s\" \""@;
    let c = download_command_text(url);
    reveal_strlit("\"");
    assert(c.take(head.len() as int) =~= head);
    assert(c.subrange(head.len() as int, (head.len() + url.len()) as int) =~= url);
}

/// `s` holds no `c`.
pub open spec fn lacks(s: Seq<char>, c: char) -> bool {
    forall|i: int| 0 <= i < s.len() ==> s[i] != c
}

proof fn lemma_pieces_last(s: Seq<char>)
    ensures
        s.len() == 0 ==> pieces(s).len() == 0,
        s.len() > 0 ==> pieces(s).len() > 0 && pieces(s).last().len() > 0 && pieces(s).last().last() == s.last(),
    decreases s.len(),
{
    if s.len() > 0 {
        lemma_pieces_last(s.drop_last());
    }
}

proof fn lemma_pieces_concat(s1: Seq<char>, s2: Seq<char>)
    requires
        s1.len() == 0 || s1.last() == '\n',
    ensures
        pieces(s1 + s2) == pieces(s1) + pieces(s2),
    decreases s2.len(),
{
    if s2.len() == 0 {
        assert(s1 + s2 =~= s1);
        assert(pieces(s1) + pieces(s2) =~= pieces(s1));
    } else {
        let t = s2.drop_last();
        let c = s2.last();
        lemma_pieces_concat(s1, t);
        assert((s1 + s2).drop_last() =~= s1 + t);
        assert((s1 + s2).last() == c);
        lemma_pieces_last(s1);
        lemma_pieces_last(t);
        let p1 = pieces(s1);
        let pt = pieces(t);
        let p = p1 + pt;
        assert(pieces(s1 + s2) == (if p.len() == 0 || p.last().last() == '\n' {
            p.push(seq![c])
        } else {
            p.update(p.len() - 1, p.last().push(c))
        }));
        assert(pieces(s2) == (if pt.len() == 0 || pt.last().last() == '\n' {
            pt.push(seq![c])
        } else {
            pt.update(pt.len() - 1, pt.last().push(c))
        }));
        if pt.len() == 0 {
            assert(p =~= p1);
            assert(p.push(seq![c]) =~= p1 + pt.push(seq![c]));
        } else {
            assert(p.last() == pt.last());
            if pt.last().last() == '\n' {
                assert(p.push(seq![c]) =~= p1 + pt.push(seq![c]));
            } else {
                assert(p.update(p.len() - 1, p.last().push(c)) =~= p1 + pt.update(pt.len() - 1, pt.last().push(c)));
            }
        }
    }
}

proof fn lemma_entries_concat(ps1: Seq<Seq<char>>, ps2: Seq<Seq<char>>)
    ensures
        entries_of(ps1 + ps2) == entries_of(ps1) + entries_of(ps2),
    decreases ps2.len(),
{
    if ps2.len() == 0 {
        assert(ps1 + ps2 =~= ps1);
        assert(entries_of(ps1) + entries_of(ps2) =~= entries_of(ps1));
    } else {
        lemma_entries_concat(ps1, ps2.drop_last());
        assert((ps1 + ps2).drop_last() =~= ps1 + ps2.drop_last());
        assert((ps1 + ps2).last() == ps2.last());
        match entry_of(line_of(ps2.last())) {
            Some(e) => {
                assert(entries_of(ps1) + entries_of(ps2.drop_last()).push(e) =~= (entries_of(ps1)
                    + entries_of(ps2.drop_last())).push(e));
            },
            None => {},
        }
    }
}

/// The listing of two texts, the first ending with a line feed (or empty), is
/// the listing of the first followed by that of the second: no entry is lost,
/// added or reordered.
pub proof fn lemma_listing_concat(s1: Seq<char>, s2: Seq<char>)
    requires
        s1.len() == 0 || s1.last() == '\n',
    ensures
        listing(s1 + s2) == listing(s1) + listing(s2),
{
    lemma_pieces_concat(s1, s2);
    lemma_entries_concat(pieces(s1), pieces(s2));
}

proof fn lemma_pieces_no_newline(l: Seq<char>)
    requires
        lacks(l, '\n'),
    ensures
        pieces(l) == (if l.len() == 0 { Seq::<Seq<char>>::empty() } else { seq![l] }),
    decreases l.len(),
{
    if l.len() > 0 {
        let t = l.drop_last();
        lemma_pieces_no_newline(t);
        if t.len() == 0 {
            assert(seq![l.last()] =~= l);
        } else {
            assert(t.last() == l[l.len() - 2]);
            assert(t.push(l.last()) =~= l);
            assert(seq![t].update(0, t.push(l.last())) =~= seq![l]);
        }
    }
}

proof fn lemma_one_piece(l: Seq<char>)
    requires
        lacks(l, '\n'),
    ensures
        pieces(l.push('\n')) == seq![l.push('\n')],
{
    lemma_pieces_no_newline(l);
    assert(l.push('\n').drop_last() =~= l);
    if l.len() == 0 {
        assert(l.push('\n') =~= seq!['\n']);
        assert(seq![l.push('\n')] =~= seq![seq!['\n']]);
    } else {
        assert(seq![l].update(0, l.push('\n')) =~= seq![l.push('\n')]);
    }
}

proof fn lemma_last_index_past(x: Seq<char>, y: Seq<char>, c: char)
    requires
        lacks(y, c),
    ensures
        last_index_of(x + y, c) == last_index_of(x, c),
    decreases y.len(),
{
    if y.len() == 0 {
        assert(x + y =~= x);
    } else {
        assert((x + y).drop_last() =~= x + y.drop_last());
        assert((x + y).last() == y.last());
        lemma_last_index_past(x, y.drop_last(), c);
    }
}

/// A line `title|address` (the title may hold `|`, the address may not, nor
/// end with a carriage return) is listed as the one entry made of the title,
/// kept to its ASCII characters, and the address.
pub proof fn lemma_listing_of_entry_line(title: Seq<char>, url: Seq<char>)
    requires
        lacks(title, '\n'),
        lacks(url, '\n'),
        lacks(url, '|'),
        url.len() == 0 || url.last() != '\r',
    ensures
        listing(title + seq!['|'] + url + seq!['\n']) == seq![(ascii_only(title), url)],
{
    let x = title + seq!['|'];
    let l = x + url;
    assert(title + seq!['|'] + url + seq!['\n'] =~= l.push('\n'));
    assert(lacks(l, '\n')) by {
        assert forall|i: int| 0 <= i < l.len() implies l[i] != '\n' by {
            if i < title.len() {
                assert(l[i] == title[i]);
            } else if i > title.len() {
                assert(l[i] == url[i - title.len() - 1]);
            }
        }
    }
    lemma_one_piece(l);
    let piece = l.push('\n');
    assert(piece.drop_last() =~= l);
    assert(l.last() != '\r') by {
        if url.len() > 0 {
            assert(l.last() == url.last());
        } else {
            assert(l.last() == '|');
        }
    }
    assert(line_of(piece) == l);
    lemma_last_index_past(x, url, '|');
    assert(x.last() == '|');
    assert(last_index_of(x, '|') == Some(title.len() as int));
    assert(l.take(title.len() as int) =~= title);
    assert(l.skip(title.len() + 1int) =~= url);
    let e = (ascii_only(title), url);
    assert(entry_of(l) == Some(e));
    let ps = seq![piece];
    assert(ps.drop_last() =~= Seq::<Seq<char>>::empty());
    assert(entries_of(ps) == entries_of(ps.drop_last()).push(e));
    assert(entries_of(ps) =~= seq![e]);
}

/// A line without `|` adds no entry.
pub proof fn lemma_listing_of_plain_line(line: Seq<char>)
    requires
        lacks(line, '\n'),
        lacks(line, '|'),
    ensures
        listing(line.push('\n')) == Seq::<(Seq<char>, Seq<char>)>::empty(),
{
    lemma_one_piece(line);
    let piece = line.push('\n');
    assert(piece.drop_last() =~= line);
    let l = line_of(piece);
    assert(l == line || l == line.drop_last());
    assert(lacks(l, '|')) by {
        assert forall|i: int| 0 <= i < l.len() implies l[i] != '|' by {
            assert(l[i] == line[i]);
        }
    }
    lemma_last_index_past(Seq::<char>::empty(), l, '|');
    assert(Seq::<char>::empty() + l =~= l);
    assert(last_index_of(Seq::<char>::empty(), '|') is None);
    assert(entry_of(l) is None);
    let ps = seq![piece];
    assert(ps.drop_last() =~= Seq::<Seq<char>>::empty());
    assert(ps.last() == piece);
    assert(entries_of(ps) == entries_of(ps.drop_last()));
}

/// A line ending with a carriage return and a line feed is read as the same
/// line without them.
pub proof fn lemma_listing_of_crlf_line(title: Seq<char>, url: Seq<char>)
    requires
        lacks(title, '\n'),
        lacks(url, '\n'),
        lacks(url, '|'),
    ensures
        listing(title + seq!['|'] + url + seq!['\r', '\n']) == seq![(ascii_only(title), url)],
{
    let x = title + seq!['|'];
    let l = x + url;
    let lr = l.push('\r');
    assert(title + seq!['|'] + url + seq!['\r', '\n'] =~= lr.push('\n'));
    assert(lacks(lr, '\n')) by {
        assert forall|i: int| 0 <= i < lr.len() implies lr[i] != '\n' by {
            if i < title.len() {
                assert(lr[i] == title[i]);
            } else if title.len() < i < l.len() {
                assert(lr[i] == url[i - title.len() - 1]);
            }
        }
    }
    lemma_one_piece(lr);
    let piece = lr.push('\n');
    assert(piece.drop_last() =~= lr);
    assert(lr.drop_last() =~= l);
    assert(line_of(piece) == l);
    lemma_last_index_past(x, url, '|');
    assert(x.last() == '|');
    assert(last_index_of(x, '|') == Some(title.len() as int));
    assert(l.take(title.len() as int) =~= title);
    assert(l.skip(title.len() + 1int) =~= url);
    let e = (ascii_only(title), url);
    assert(entry_of(l) == Some(e));
    let ps = seq![piece];
    assert(ps.drop_last() =~= Seq::<Seq<char>>::empty());
    assert(entries_of(ps) == entries_of(ps.drop_last()).push(e));
    assert(entries_of(ps) =~= seq![e]);
}

/// The line ending of the last line is optional: a last line without one is
/// read as if it had one (unless it ends with a carriage return, which then
/// stays part of it).
pub proof fn lemma_final_line_ending_optional(line: Seq<char>)
    requires
        lacks(line, '\n'),
        line.len() == 0 || line.last() != '\r',
    ensures
        listing(line) == listing(line.push('\n')),
{
    lemma_pieces_no_newline(line);
    lemma_one_piece(line);
    let piece = line.push('\n');
    assert(piece.drop_last() =~= line);
    assert(line_of(piece) == line);
    if line.len() > 0 {
        assert(line.last() != '\n');
        assert(line_of(line) == line);
        let ps = seq![line];
        let qs = seq![piece];
        assert(ps.drop_last() =~= Seq::<Seq<char>>::empty());
        assert(qs.drop_last() =~= Seq::<Seq<char>>::empty());
        assert(entries_of(ps) == entries_of(qs));
    } else {
        assert(piece =~= seq!['\n']);
        assert(line_of(piece) =~= Seq::<char>::empty());
        let qs = seq![piece];
        assert(qs.drop_last() =~= Seq::<Seq<char>>::empty());
        assert(last_index_of(Seq::<char>::empty(), '|') is None);
        assert(entries_of(qs) == entries_of(qs.drop_last()));
    }
}

} // verus!
