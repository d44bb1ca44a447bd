//! What a dependency probe reports: which probe a command gets, and the
//! one-line summary drawn from what the probe printed.
use vstd::prelude::*;

use crate::execution::{lossy_text, utf8_lossy};
use crate::text::{char_is_space, chars_of, is_blank, is_space, owned, string_from_chars, text_eq};

verus! {

broadcast use vstd::seq_lib::group_seq_properties;

/// The pieces of a text between its line feeds, the last piece included
/// even when it is empty.
pub open spec fn split_lines(s: Seq<char>, current: Seq<char>, done: Seq<Seq<char>>) -> Seq<Seq<char>>
    decreases s.len(),
{
    if s.len() == 0 {
        done.push(current)
    } else if s[0] == '\n' {
        split_lines(s.drop_first(), Seq::empty(), done.push(current))
    } else {
        split_lines(s.drop_first(), current.push(s[0]), done)
    }
}

/// A line that ended with a line feed loses one carriage return before it.
pub open spec fn without_cr(line: Seq<char>) -> Seq<char> {
    if line.len() > 0 && line.last() == '\r' {
        line.drop_last()
    } else {
        line
    }
}

/// The lines of a text as `str::lines` yields them: split at each line
/// feed, a carriage return just before a line feed dropped, and no empty
/// line after a final line feed.
pub open spec fn text_lines(s: Seq<char>) -> Seq<Seq<char>> {
    let ps = split_lines(s, Seq::empty(), Seq::empty());
    let ended = Seq::new((ps.len() - 1) as nat, |i: int| without_cr(ps[i]));
    if ps.last().len() > 0 {
        ended.push(ps.last())
    } else {
        ended
    }
}

/// The text without leading whitespace.
pub open spec fn trim_start(s: Seq<char>) -> Seq<char>
    decreases s.len(),
{
    if s.len() > 0 && is_space(s[0]) {
        trim_start(s.drop_first())
    } else {
        s
    }
}

/// The text without trailing whitespace.
pub open spec fn trim_end(s: Seq<char>) -> Seq<char>
    decreases s.len(),
{
    if s.len() > 0 && is_space(s.last()) {
        trim_end(s.drop_last())
    } else {
        s
    }
}

/// The text without leading or trailing whitespace.
pub open spec fn trimmed(s: Seq<char>) -> Seq<char> {
    trim_end(trim_start(s))
}

/// The first line that is not blank, trimmed; `None` when every line is
/// blank.
pub open spec fn first_filled_line(lines: Seq<Seq<char>>) -> Option<Seq<char>>
    decreases lines.len(),
{
    if lines.len() == 0 {
        None
    } else if !is_blank(lines[0]) {
        Some(trimmed(lines[0]))
    } else {
        first_filled_line(lines.drop_first())
    }
}

/// ffmpeg and ffprobe are probed for their version; every other command
/// for its help text.
pub open spec fn probes_version(command: Seq<char>) -> bool {
    command == "ffmpeg"@ || command == "ffprobe"@
}

/// The summary of a version probe: its first output line, or a fixed
/// phrase when it printed nothing.
pub open spec fn version_summary_text(stdout: Seq<char>) -> Seq<char> {
    let lines = text_lines(stdout);
    if lines.len() > 0 {
        lines[0]
    } else {
        "version unavailable"@
    }
}

/// The summary of a help probe: the first filled line of its standard
/// output, then of its standard error, or a fixed phrase.
pub open spec fn help_summary_text(stdout: Seq<char>, stderr: Seq<char>) -> Seq<char> {
    match first_filled_line(text_lines(stdout) + text_lines(stderr)) {
        Some(line) => line,
        None => "executable available"@,
    }
}

/// Whether a command is probed for its version rather than its help text.
pub fn probes_version_of(command: &str) -> (r: bool)
    ensures
        r == probes_version(command@),
{
    proof {
        reveal_strlit("ffmpeg");
        reveal_strlit("ffprobe");
    }
    text_eq(command, "ffmpeg") || text_eq(command, "ffprobe")
}

fn split_text_lines(chars: &Vec<char>) -> (r: Vec<Vec<char>>)
    ensures
        r@.map_values(|p: Vec<char>| p@) == split_lines(chars@, Seq::empty(), Seq::empty()),
{
    let mut done: Vec<Vec<char>> = Vec::new();
    let mut current: Vec<char> = Vec::new();
    let mut i: usize = 0;
    assert(chars@.skip(0) =~= chars@);
    assert(current@ =~= Seq::<char>::empty());
    assert(done@.map_values(|p: Vec<char>| p@) =~= Seq::<Seq<char>>::empty());
    while i < chars.len()
        invariant
            i <= chars.len(),
            split_lines(chars@.skip(i as int), current@, done@.map_values(|p: Vec<char>| p@)) == split_lines(
                chars@,
                Seq::empty(),
                Seq::empty(),
            ),
        decreases chars.len() - i,
    {
        let c = chars[i];
        assert(chars@.skip(i as int).drop_first() =~= chars@.skip(i + 1));
        assert(chars@.skip(i as int)[0] == c);
        if c == '\n' {
            let finished = current;
            current = Vec::new();
            let ghost before = done@;
            done.push(finished);
            assert(done@.map_values(|p: Vec<char>| p@) =~= before.map_values(|p: Vec<char>| p@).push(finished@));
            assert(current@ =~= Seq::<char>::empty());
        } else {
            current.push(c);
        }
        i = i + 1;
    }
    let ghost before = done@;
    let last = current;
    done.push(last);
    assert(done@.map_values(|p: Vec<char>| p@) =~= before.map_values(|p: Vec<char>| p@).push(last@));
    done
}

/// Split into lines as `str::lines` does.
fn lines_of(text: &str) -> (r: Vec<Vec<char>>)
    ensures
        r@.map_values(|p: Vec<char>| p@) == text_lines(text@),
{
    let chars = chars_of(text);
    let mut pieces = split_text_lines(&chars);
    let ghost ps = pieces@.map_values(|p: Vec<char>| p@);
    assert(ps.len() > 0) by {
        lemma_split_lines_nonempty(chars@, Seq::empty(), Seq::empty());
    }
    let last = pieces.pop().unwrap();
    let mut lines: Vec<Vec<char>> = Vec::new();
    let mut i: usize = 0;
    while i < pieces.len()
        invariant
            i <= pieces.len(),
            pieces@.len() + 1 == ps.len(),
            forall|k: int| 0 <= k < pieces@.len() ==> #[trigger] pieces@[k]@ == ps[k],
            lines@.len() == i,
            forall|k: int| 0 <= k < i ==> #[trigger] lines@[k]@ == without_cr(ps[k]),
        decreases pieces.len() - i,
    {
        let piece = &pieces[i];
        let mut line: Vec<char> = Vec::new();
        let n = piece.len();
        let keep = if n > 0 && piece[n - 1] == '\r' { n - 1 } else { n };
        let mut k: usize = 0;
        while k < keep
            invariant
                keep <= piece.len(),
                k <= keep,
                line@ == piece@.take(k as int),
            decreases keep - k,
        {
            line.push(piece[k]);
            assert(line@ =~= piece@.take(k + 1));
            k = k + 1;
        }
        assert(line@ =~= without_cr(piece@));
        lines.push(line);
        i = i + 1;
    }
    assert(last@ == ps.last());
    if last.len() > 0 {
        lines.push(last);
    }
    assert(lines@.map_values(|p: Vec<char>| p@) =~= text_lines(text@));
    lines
}

proof fn lemma_split_lines_nonempty(s: Seq<char>, current: Seq<char>, done: Seq<Seq<char>>)
    ensures
        split_lines(s, current, done).len() > 0,
    decreases s.len(),
{
    if s.len() > 0 {
        if s[0] == '\n' {
            lemma_split_lines_nonempty(s.drop_first(), Seq::empty(), done.push(current));
        } else {
            lemma_split_lines_nonempty(s.drop_first(), current.push(s[0]), done);
        }
    }
}

proof fn lemma_trim_start_drop(s: Seq<char>, k: int)
    requires
        0 <= k <= s.len(),
        forall|i: int| 0 <= i < k ==> is_space(#[trigger] s[i]),
    ensures
        trim_start(s) == trim_start(s.skip(k)),
    decreases k,
{
    if k > 0 {
        assert(s.drop_first().skip(k - 1) =~= s.skip(k));
        lemma_trim_start_drop(s.drop_first(), k - 1);
    } else {
        assert(s.skip(0) =~= s);
    }
}

proof fn lemma_trim_end_drop(s: Seq<char>, k: int)
    requires
        0 <= k <= s.len(),
        forall|i: int| k <= i < s.len() ==> is_space(#[trigger] s[i]),
    ensures
        trim_end(s) == trim_end(s.take(k)),
    decreases s.len() - k,
{
    if k < s.len() {
        assert(s.drop_last().take(k) =~= s.take(k));
        lemma_trim_end_drop(s.drop_last(), k);
    } else {
        assert(s.take(k) =~= s);
    }
}

/// The line without leading or trailing whitespace.
fn trim_line(line: &Vec<char>) -> (r: String)
    ensures
        r@ == trimmed(line@),
{
    let n = line.len();
    let mut start: usize = 0;
    while start < n && char_is_space(line[start])
        invariant
            n == line.len(),
            start <= n,
            forall|i: int| 0 <= i < start ==> is_space(#[trigger] line@[i]),
        decreases n - start,
    {
        start = start + 1;
    }
    proof {
        lemma_trim_start_drop(line@, start as int);
    }
    let ghost rest = line@.skip(start as int);
    assert(trim_start(rest) == rest);
    let mut end: usize = n;
    while end > start && char_is_space(line[end - 1])
        invariant
            n == line.len(),
            start <= end <= n,
            forall|i: int| end <= i < n ==> is_space(#[trigger] line@[i]),
        decreases end - start,
    {
        end = end - 1;
    }
    proof {
        assert forall|i: int| end - start <= i < rest.len() implies is_space(#[trigger] rest[i]) by {
            assert(rest[i] == line@[i + start]);
        }
        lemma_trim_end_drop(rest, end - start);
        assert(rest.take(end - start) =~= line@.subrange(start as int, end as int));
    }
    let mut out: Vec<char> = Vec::new();
    let mut k: usize = start;
    while k < end
        invariant
            start <= k <= end <= n,
            n == line.len(),
            out@ == line@.subrange(start as int, k as int),
        decreases end - k,
    {
        out.push(line[k]);
        assert(out@ =~= line@.subrange(start as int, k + 1));
        k = k + 1;
    }
    string_from_chars(&out)
}

fn line_is_blank(line: &Vec<char>) -> (r: bool)
    ensures
        r == is_blank(line@),
{
    let mut i: usize = 0;
    while i < line.len()
        invariant
            i <= line.len(),
            forall|k: int| 0 <= k < i ==> is_space(#[trigger] line@[k]),
        decreases line.len() - i,
    {
        if !char_is_space(line[i]) {
            return false;
        }
        i = i + 1;
    }
    true
}

/// The one-line summary of a version probe (`-version`), or `None` when
/// the probe reported failure.
pub fn version_summary(succeeded: bool, stdout: &[u8]) -> (r: Option<String>)
    ensures
        r is Some <==> succeeded,
        r matches Some(s) ==> s@ == version_summary_text(utf8_lossy(stdout@)),
{
    if !succeeded {
        return None;
    }
    let text = lossy_text(stdout);
    let lines = lines_of(text.as_str());
    proof {
        reveal_strlit("version unavailable");
    }
    if lines.len() > 0 {
        assert(lines@[0]@ == text_lines(text@)[0]);
        Some(string_from_chars(lines[0].as_slice()))
    } else {
        Some(owned("version unavailable"))
    }
}

/// The one-line summary of a help probe (`--help`): the first line with
/// any text in it, trimmed, from standard output and then standard error.
pub fn help_summary(stdout: &[u8], stderr: &[u8]) -> (r: String)
    ensures
        r@ == help_summary_text(utf8_lossy(stdout@), utf8_lossy(stderr@)),
{
    let out_text = lossy_text(stdout);
    let err_text = lossy_text(stderr);
    let mut lines = lines_of(out_text.as_str());
    let mut tail = lines_of(err_text.as_str());
    let ghost out_lines = lines@;
    lines.append(&mut tail);
    let ghost all = text_lines(out_text@) + text_lines(err_text@);
    assert(lines@.map_values(|p: Vec<char>| p@) =~= all);
    let mut i: usize = 0;
    while i < lines.len()
        invariant
            i <= lines.len(),
            lines@.map_values(|p: Vec<char>| p@) == all,
            all == text_lines(utf8_lossy(stdout@)) + text_lines(utf8_lossy(stderr@)),
            first_filled_line(all) == first_filled_line(all.skip(i as int)),
        decreases lines.len() - i,
    {
        assert(all.skip(i as int)[0] == lines@[i as int]@);
        assert(all.skip(i as int).drop_first() =~= all.skip(i + 1));
        if !line_is_blank(&lines[i]) {
            let line = trim_line(&lines[i]);
            assert(all.skip(i as int).len() > 0);
            assert(first_filled_line(all.skip(i as int)) == Some(trimmed(lines@[i as int]@)));
            return line;
        }
        i = i + 1;
    }
    assert(all.skip(i as int).len() == 0);
    proof {
        reveal_strlit("executable available");
    }
    owned("executable available")
}

/// How many bytes of a chunk of `read` bytes are kept when `held` bytes
/// are already retained under a limit of `limit` bytes.
pub open spec fn kept_bytes(held: int, read: int, limit: int) -> int {
    let remaining = if limit > held { limit - held } else { 0 };
    if remaining < read { remaining } else { read }
}

/// Retain what still fits under `limit` of one chunk read from a child's
/// output stream; report whether part of the chunk was dropped.
pub fn retain_chunk(retained: &mut Vec<u8>, chunk: &[u8], limit: usize) -> (dropped: bool)
    ensures
        final(retained)@ == old(retained)@ + chunk@.take(kept_bytes(old(retained)@.len() as int, chunk@.len() as int, limit as int)),
        dropped <==> kept_bytes(old(retained)@.len() as int, chunk@.len() as int, limit as int) < chunk@.len(),
{
    let remaining = limit.saturating_sub(retained.len());
    let keep = if remaining < chunk.len() { remaining } else { chunk.len() };
    let ghost before = retained@;
    let mut k: usize = 0;
    while k < keep
        invariant
            keep <= chunk@.len(),
            k <= keep,
            retained@ == before + chunk@.take(k as int),
        decreases keep - k,
    {
        retained.push(chunk[k]);
        assert(retained@ =~= before + chunk@.take(k + 1));
        k = k + 1;
    }
    keep < chunk.len()
}

} // verus!
