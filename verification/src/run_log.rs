//! The run log: the durable record of each job's last successful run,
//! and its line-oriented text codec.
//!
//! The file format is one `<job-id>:<unix-seconds>` entry per line;
//! blank lines and lines opening with `#` are skipped; any other
//! malformed line fails the whole parse. Serialising and then parsing
//! a log yields the same record.

use vstd::prelude::*;
use vstd::string::StrSliceExecFns;
use vstd::string::StringExecFns;
use crate::assoc::alist_map;
use crate::assoc::alist_unique;
use crate::assoc::lemma_alist_map_domain;
use crate::assoc::lemma_alist_map_index;
use crate::assoc::lemma_alist_map_last;
use crate::assoc::lemma_alist_map_push;
use crate::assoc::lemma_alist_map_update;
use crate::assoc::lemma_alist_unique_push;
use crate::config::JobDefinitionId;
use crate::text::dec_rep;
use crate::text::digits_value;
use crate::text::is_kebab;
use crate::text::lemma_dec_rep_digits;
use crate::text::lemma_digit_chars;
use crate::text::lemma_kebab_chars;
use crate::text::parse_u64;
use crate::text::parses_as_u64;

verus! {

// --- the textual format, at the specification level ---

/// Index of the first newline, or the length when there is none.
pub open spec fn first_nl(s: Seq<char>) -> int
    decreases s.len(),
{
    if s.len() == 0 {
        0
    } else if s[0] == '\n' {
        0
    } else {
        1 + first_nl(s.skip(1))
    }
}

/// Index of the first colon, or the length when there is none.
pub open spec fn first_colon(s: Seq<char>) -> int
    decreases s.len(),
{
    if s.len() == 0 {
        0
    } else if s[0] == ':' {
        0
    } else {
        1 + first_colon(s.skip(1))
    }
}

/// Drop one carriage return off the end of a line, as line iteration
/// does.
pub open spec fn strip_cr(l: Seq<char>) -> Seq<char> {
    if l.len() > 0 && l.last() == '\r' {
        l.drop_last()
    } else {
        l
    }
}

/// The lines of a text: split at newlines, a trailing newline opening
/// no further line, each line stripped of one trailing carriage
/// return.
pub open spec fn split_lines(s: Seq<char>) -> Seq<Seq<char>>
    decreases s.len(),
{
    if s.len() == 0 {
        Seq::empty()
    } else {
        let i = first_nl(s);
        if 0 <= i < s.len() {
            seq![strip_cr(s.take(i))] + split_lines(s.skip(i + 1))
        } else {
            seq![strip_cr(s)]
        }
    }
}

/// The first-newline index lies within the text.
pub proof fn lemma_first_nl_bounds(s: Seq<char>)
    ensures
        0 <= first_nl(s) <= s.len(),
        first_nl(s) < s.len() ==> s[first_nl(s)] == '\n',
        forall|j: int| 0 <= j < first_nl(s) ==> s[j] != '\n',
    decreases s.len(),
{
    if s.len() > 0 && s[0] != '\n' {
        lemma_first_nl_bounds(s.skip(1));
        assert(first_nl(s) == 1 + first_nl(s.skip(1)));
        if first_nl(s) < s.len() {
            assert(s[first_nl(s)] == s.skip(1)[first_nl(s.skip(1))]);
        }
        assert forall|j: int| 0 <= j < first_nl(s) implies s[j] != '\n' by {
            if j > 0 {
                assert(s[j] == s.skip(1)[j - 1]);
            }
        }
    }
}

/// The first-colon index lies within the text.
pub proof fn lemma_first_colon_bounds(s: Seq<char>)
    ensures
        0 <= first_colon(s) <= s.len(),
        first_colon(s) < s.len() ==> s[first_colon(s)] == ':',
        forall|j: int| 0 <= j < first_colon(s) ==> s[j] != ':',
    decreases s.len(),
{
    if s.len() > 0 && s[0] != ':' {
        lemma_first_colon_bounds(s.skip(1));
        assert(first_colon(s) == 1 + first_colon(s.skip(1)));
        if first_colon(s) < s.len() {
            assert(s[first_colon(s)] == s.skip(1)[first_colon(s.skip(1))]);
        }
        assert forall|j: int| 0 <= j < first_colon(s) implies s[j] != ':' by {
            if j > 0 {
                assert(s[j] == s.skip(1)[j - 1]);
            }
        }
    }
}

/// A line the parser passes over.
pub open spec fn line_is_skip(l: Seq<char>) -> bool {
    l.len() == 0 || l[0] == '#'
}

/// The entry a non-skipped line carries: the text before the first
/// colon as the id, the text between the first and second colons as
/// the decimal timestamp; anything after a second colon is ignored.
/// `None` when there is no colon, the id is not kebab-case, or the
/// timestamp does not parse.
pub open spec fn parse_line(l: Seq<char>) -> Option<(Seq<char>, u64)> {
    if first_colon(l) == l.len() {
        None
    } else {
        let id = l.take(first_colon(l));
        let rest = l.skip(first_colon(l) + 1);
        let num = rest.take(first_colon(rest));
        if is_kebab(id) && parses_as_u64(num) {
            Some((id, digits_value(num) as u64))
        } else {
            None
        }
    }
}

/// Fold the lines into a record, later entries overwriting earlier
/// ones; any malformed line poisons the whole parse.
pub open spec fn fold_lines(lines: Seq<Seq<char>>) -> Option<Map<Seq<char>, u64>>
    decreases lines.len(),
{
    if lines.len() == 0 {
        Some(Map::empty())
    } else {
        match fold_lines(lines.drop_last()) {
            None => None,
            Some(m) => {
                if line_is_skip(lines.last()) {
                    Some(m)
                } else {
                    match parse_line(lines.last()) {
                        None => None,
                        Some(kv) => Some(m.insert(kv.0, kv.1)),
                    }
                }
            },
        }
    }
}

/// What a run-log text parses to, if anything.
pub open spec fn parse_log_spec(s: Seq<char>) -> Option<Map<Seq<char>, u64>> {
    fold_lines(split_lines(s))
}

/// The line of one entry.
pub open spec fn entry_line_rep(k: Seq<char>, v: u64) -> Seq<char> {
    k + seq![':'] + dec_rep(v as int) + seq!['\n']
}

/// The serialised form of an entry list: one line per entry, in list
/// order.
pub open spec fn write_spec(kv: Seq<(Seq<char>, u64)>) -> Seq<char>
    decreases kv.len(),
{
    if kv.len() == 0 {
        Seq::empty()
    } else {
        write_spec(kv.drop_last()) + entry_line_rep(kv.last().0, kv.last().1)
    }
}

// --- lemmas toward the round trip ---

/// `first_nl` is characterised by its first witness.
pub proof fn lemma_first_nl_is(s: Seq<char>, k: int)
    requires
        0 <= k <= s.len(),
        forall|j: int| 0 <= j < k ==> s[j] != '\n',
        k < s.len() ==> s[k] == '\n',
    ensures
        first_nl(s) == k,
    decreases k,
{
    if k > 0 {
        lemma_first_nl_is(s.skip(1), k - 1);
    }
}

/// `first_colon` is characterised by its first witness.
pub proof fn lemma_first_colon_is(s: Seq<char>, k: int)
    requires
        0 <= k <= s.len(),
        forall|j: int| 0 <= j < k ==> s[j] != ':',
        k < s.len() ==> s[k] == ':',
    ensures
        first_colon(s) == k,
    decreases k,
{
    if k > 0 {
        lemma_first_colon_is(s.skip(1), k - 1);
    }
}

/// Serialisation unfolds at the front as well.
proof fn lemma_write_unfold_front(kv: Seq<(Seq<char>, u64)>)
    requires
        kv.len() > 0,
    ensures
        write_spec(kv) == entry_line_rep(kv[0].0, kv[0].1) + write_spec(kv.skip(1)),
    decreases kv.len(),
{
    if kv.len() == 1 {
        assert(kv.drop_last().len() == 0);
        assert(write_spec(kv.drop_last()) == Seq::<char>::empty());
        assert(kv.skip(1).len() == 0);
        assert(write_spec(kv) =~= entry_line_rep(kv[0].0, kv[0].1) + write_spec(kv.skip(1)));
    } else {
        lemma_write_unfold_front(kv.drop_last());
        assert(kv.drop_last()[0] == kv[0]);
        assert(kv.skip(1).drop_last() =~= kv.drop_last().skip(1));
        assert(kv.skip(1).last() == kv.last());
        assert(write_spec(kv.skip(1)) == write_spec(kv.skip(1).drop_last()) + entry_line_rep(
            kv.skip(1).last().0,
            kv.skip(1).last().1,
        ));
        assert(write_spec(kv) =~= entry_line_rep(kv[0].0, kv[0].1) + write_spec(kv.skip(1)));
    }
}

/// Splitting a text that opens with a newline-terminated, newline-free
/// line peels that line off.
proof fn lemma_split_entry_line(content: Seq<char>, rest: Seq<char>)
    requires
        forall|j: int| 0 <= j < content.len() ==> content[j] != '\n',
        content.len() == 0 || content.last() != '\r',
    ensures
        split_lines(content + seq!['\n'] + rest) == seq![content] + split_lines(rest),
{
    let s = content + seq!['\n'] + rest;
    assert(s.len() > 0);
    assert forall|j: int| 0 <= j < content.len() implies s[j] != '\n' by {
        assert(s[j] == content[j]);
    }
    assert(s[content.len() as int] == '\n');
    lemma_first_nl_is(s, content.len() as int);
    assert(s.take(content.len() as int) =~= content);
    assert(strip_cr(content) == content);
    assert(s.skip(content.len() as int + 1) =~= rest);
    assert(split_lines(s) =~= seq![content] + split_lines(rest));
}

/// An entry's line parses back to the entry.
proof fn lemma_parse_entry_line(k: Seq<char>, v: u64)
    requires
        is_kebab(k),
    ensures
        !line_is_skip(k + seq![':'] + dec_rep(v as int)),
        parse_line(k + seq![':'] + dec_rep(v as int)) == Some((k, v)),
{
    let digits = dec_rep(v as int);
    let l = k + seq![':'] + digits;
    lemma_dec_rep_digits(v as int);
    lemma_kebab_chars(k);
    lemma_digit_chars(digits);
    assert(l[0] == k[0]);
    assert(!line_is_skip(l));
    assert forall|j: int| 0 <= j < k.len() implies l[j] != ':' by {
        assert(l[j] == k[j]);
    }
    assert(l[k.len() as int] == ':');
    lemma_first_colon_is(l, k.len() as int);
    assert(l.take(k.len() as int) =~= k);
    let rest = l.skip(k.len() as int + 1);
    assert(rest =~= digits);
    lemma_first_colon_is(digits, digits.len() as int);
    assert(digits.take(digits.len() as int) =~= digits);
    assert(digits_value(digits) == v);
}

/// The content (without its newline) of an entry's line.
pub open spec fn entry_content_rep(k: Seq<char>, v: u64) -> Seq<char> {
    k + seq![':'] + dec_rep(v as int)
}

/// The lines of a serialised entry list are exactly the entries'
/// contents.
proof fn lemma_split_write(kv: Seq<(Seq<char>, u64)>)
    requires
        forall|i: int| 0 <= i < kv.len() ==> is_kebab((#[trigger] kv[i]).0),
    ensures
        split_lines(write_spec(kv)) =~= Seq::new(
            kv.len(),
            |i: int| entry_content_rep(kv[i].0, kv[i].1),
        ),
    decreases kv.len(),
{
    if kv.len() > 0 {
        lemma_write_unfold_front(kv);
        assert(forall|i: int|
            0 <= i < kv.skip(1).len() ==> is_kebab((#[trigger] kv.skip(1)[i]).0));
        lemma_split_write(kv.skip(1));
        let content = entry_content_rep(kv[0].0, kv[0].1);
        lemma_kebab_chars(kv[0].0);
        lemma_dec_rep_digits(kv[0].1 as int);
        lemma_digit_chars(dec_rep(kv[0].1 as int));
        assert forall|j: int| 0 <= j < content.len() implies content[j] != '\n' by {
            lemma_digit_chars(dec_rep(kv[0].1 as int));
        }
        assert(content.len() > 0);
        assert(content.last() != '\r');
        assert(entry_line_rep(kv[0].0, kv[0].1) =~= content + seq!['\n']);
        assert(entry_line_rep(kv[0].0, kv[0].1) + write_spec(kv.skip(1)) =~= content + seq!['\n']
            + write_spec(kv.skip(1)));
        lemma_split_entry_line(content, write_spec(kv.skip(1)));
    }
}

/// Folding the entries' contents rebuilds the entries' map.
proof fn lemma_fold_contents(kv: Seq<(Seq<char>, u64)>)
    requires
        forall|i: int| 0 <= i < kv.len() ==> is_kebab((#[trigger] kv[i]).0),
    ensures
        fold_lines(Seq::new(kv.len(), |i: int| entry_content_rep(kv[i].0, kv[i].1))
        ) == Some(alist_map(kv)),
    decreases kv.len(),
{
    let lines = Seq::new(kv.len(), |i: int| entry_content_rep(kv[i].0, kv[i].1));
    if kv.len() > 0 {
        assert(forall|i: int|
            0 <= i < kv.drop_last().len() ==> is_kebab((#[trigger] kv.drop_last()[i]).0));
        lemma_fold_contents(kv.drop_last());
        assert(lines.drop_last() =~= Seq::new(
            kv.drop_last().len(),
            |i: int| entry_content_rep(kv.drop_last()[i].0, kv.drop_last()[i].1),
        ));
        lemma_parse_entry_line(kv.last().0, kv.last().1);
        assert(lines.last() == entry_content_rep(kv.last().0, kv.last().1));
    }
}

/// Round trip: parsing a serialised record yields the record back.
pub proof fn lemma_run_log_round_trip(kv: Seq<(Seq<char>, u64)>)
    requires
        forall|i: int| 0 <= i < kv.len() ==> is_kebab((#[trigger] kv[i]).0),
    ensures
        parse_log_spec(write_spec(kv)) == Some(alist_map(kv)),
{
    lemma_split_write(kv);
    lemma_fold_contents(kv);
}

/// A malformed line anywhere poisons the fold.
proof fn lemma_fold_poisoned(lines: Seq<Seq<char>>, i: int)
    requires
        0 <= i < lines.len(),
        !line_is_skip(lines[i]),
        parse_line(lines[i]) is None,
    ensures
        fold_lines(lines) is None,
    decreases lines.len(),
{
    if i < lines.len() - 1 {
        assert(lines.drop_last()[i] == lines[i]);
        lemma_fold_poisoned(lines.drop_last(), i);
    }
}

// --- the record itself ---

/// The key-value reading of an entry list.
pub open spec fn kv_of(s: Seq<(JobDefinitionId, u64)>) -> Seq<(Seq<char>, u64)> {
    s.map_values(|p: (JobDefinitionId, u64)| (p.0@, p.1))
}

/// The record of each job's last successful run.
#[derive(Debug)]
pub struct RunLog {
    last_run: Vec<(JobDefinitionId, u64)>,
}

impl View for RunLog {
    type V = Map<Seq<char>, u64>;

    closed spec fn view(&self) -> Map<Seq<char>, u64> {
        alist_map(kv_of(self.last_run@))
    }
}

/// Find the entry of an identifier.
fn find_index(entries: &Vec<(JobDefinitionId, u64)>, id: &JobDefinitionId) -> (r: Option<usize>)
    ensures
        r matches Some(i) ==> i < entries@.len() && kv_of(entries@)[i as int].0 == id@,
        r is None ==> forall|i: int|
            0 <= i < entries@.len() ==> (#[trigger] kv_of(entries@)[i]).0 != id@,
{
    let mut i: usize = 0;
    while i < entries.len()
        invariant
            0 <= i <= entries@.len(),
            forall|j: int| 0 <= j < i ==> (#[trigger] kv_of(entries@)[j]).0 != id@,
        decreases entries@.len() - i,
    {
        if entries[i].0 == *id {
            return Some(i);
        }
        i = i + 1;
    }
    None
}

/// Insert or overwrite the entry of an identifier.
fn upsert_entry(entries: &mut Vec<(JobDefinitionId, u64)>, id: JobDefinitionId, v: u64)
    requires
        alist_unique(kv_of(old(entries)@)),
        forall|i: int|
            0 <= i < old(entries)@.len() ==> is_kebab((#[trigger] kv_of(old(entries)@)[i]).0),
        id.wf(),
    ensures
        alist_unique(kv_of(final(entries)@)),
        forall|i: int|
            0 <= i < final(entries)@.len() ==> is_kebab((#[trigger] kv_of(final(entries)@)[i]).0),
        alist_map(kv_of(final(entries)@)) =~= alist_map(kv_of(old(entries)@)).insert(id@, v),
{
    let ghost kv0 = kv_of(entries@);
    match find_index(entries, &id) {
        Some(i) => {
            proof {
                lemma_alist_map_update(kv0, i as int, v);
            }
            entries.set(i, (id, v));
            proof {
                assert(kv_of(entries@) =~= kv0.update(i as int, (kv0[i as int].0, v)));
                assert(alist_unique(kv_of(entries@))) by {
                    assert(forall|a: int|
                        0 <= a < kv_of(entries@).len() ==> (#[trigger] kv_of(entries@)[a]).0
                            == kv0[a].0);
                }
            }
        },
        None => {
            proof {
                lemma_alist_map_push(kv0, id@, v);
                lemma_alist_unique_push(kv0, id@, v);
            }
            entries.push((id, v));
            proof {
                assert(kv_of(entries@) =~= kv0.push((id@, v)));
            }
        },
    }
}

impl RunLog {
    /// The entry list as key-value pairs.
    pub closed spec fn kv(self) -> Seq<(Seq<char>, u64)> {
        kv_of(self.last_run@)
    }

    /// Entries hold distinct, kebab-case identifiers.
    pub open spec fn wf(self) -> bool {
        &&& alist_unique(self.kv())
        &&& forall|i: int| 0 <= i < self.kv().len() ==> is_kebab((#[trigger] self.kv()[i]).0)
    }

    /// The recorded last successful run of a job, if any.
    pub fn get_last_successful_run_time(&self, id: &JobDefinitionId) -> (r: Option<u64>)
        requires
            self.wf(),
        ensures
            r == if self@.contains_key(id@) {
                Some(self@[id@])
            } else {
                None::<u64>
            },
    {
        match find_index(&self.last_run, id) {
            Some(i) => {
                proof {
                    lemma_alist_map_index(self.kv(), i as int);
                }
                Some(self.last_run[i].1)
            },
            None => {
                proof {
                    lemma_alist_map_domain(self.kv(), id@);
                }
                None
            },
        }
    }

    /// Record a successful run, overwriting any earlier entry.
    pub fn record(&mut self, id: JobDefinitionId, timestamp: u64)
        requires
            old(self).wf(),
            id.wf(),
        ensures
            final(self).wf(),
            final(self)@ =~= old(self)@.insert(id@, timestamp),
    {
        upsert_entry(&mut self.last_run, id, timestamp);
    }

    /// Parse a run-log text. Succeeds exactly when every non-blank,
    /// non-comment line is a well-formed entry; later entries for an
    /// identifier overwrite earlier ones.
    #[verifier::rlimit(80)]
    pub fn read_from_string(s: &str) -> (r: Result<RunLog, String>)
        ensures
            r is Ok <==> parse_log_spec(s@) is Some,
            r matches Ok(log) ==> log.wf() && log@ == parse_log_spec(s@)->0,
    {
        let n = s.unicode_len();
        let mut entries: Vec<(JobDefinitionId, u64)> = Vec::new();
        let mut pos: usize = 0;
        let ghost mut done: Seq<Seq<char>> = Seq::empty();
        proof {
            assert(kv_of(entries@) =~= Seq::<(Seq<char>, u64)>::empty());
            assert(s@.skip(0) =~= s@);
            assert(split_lines(s@) =~= done + split_lines(s@.skip(0)));
        }
        while pos < n
            invariant
                0 <= pos <= n,
                n == s@.len(),
                split_lines(s@) == done + split_lines(s@.skip(pos as int)),
                fold_lines(done) == Some(alist_map(kv_of(entries@))),
                alist_unique(kv_of(entries@)),
                forall|i: int|
                    0 <= i < entries@.len() ==> is_kebab((#[trigger] kv_of(entries@)[i]).0),
            decreases n - pos,
        {
            let ghost t = s@.skip(pos as int);
            let mut j: usize = pos;
            while j < n && s.get_char(j) != '\n'
                invariant
                    pos <= j <= n,
                    n == s@.len(),
                    forall|x: int| pos <= x < j ==> s@[x] != '\n',
                decreases n - j,
            {
                j = j + 1;
            }
            proof {
                assert forall|x: int| 0 <= x < j - pos implies t[x] != '\n' by {
                    assert(t[x] == s@[pos + x]);
                }
                if j < n {
                    assert(t[j - pos] == s@[j as int]);
                }
                lemma_first_nl_is(t, j - pos);
            }
            let mut line_end = j;
            if j > pos && s.get_char(j - 1) == '\r' {
                line_end = j - 1;
            }
            let ghost raw = t.take(j - pos);
            let ghost stripped = strip_cr(raw);
            let next_pos = if j < n {
                j + 1
            } else {
                n
            };
            proof {
                assert(raw =~= s@.subrange(pos as int, j as int));
                if line_end < j {
                    assert(raw.last() == s@[j - 1]);
                    assert(stripped =~= s@.subrange(pos as int, line_end as int));
                } else {
                    assert(stripped == raw);
                    assert(stripped =~= s@.subrange(pos as int, line_end as int));
                }
                if j < n {
                    assert(t.skip(j - pos + 1) =~= s@.skip(next_pos as int));
                    assert(split_lines(t) == seq![stripped] + split_lines(s@.skip(next_pos as int)));
                } else {
                    assert(t.len() > 0);
                    assert(first_nl(t) == t.len());
                    assert(split_lines(t) == seq![stripped]);
                    assert(s@.skip(next_pos as int) =~= Seq::<char>::empty());
                    assert(split_lines(t) =~= seq![stripped] + split_lines(s@.skip(next_pos as int)));
                }
                assert(split_lines(s@) =~= (done + seq![stripped]) + split_lines(
                    s@.skip(next_pos as int),
                ));
            }
            if line_end == pos {
                proof {
                    assert(stripped.len() == 0);
                    assert(line_is_skip(stripped));
                    assert(done.push(stripped).drop_last() =~= done);
                    done = done.push(stripped);
                }
            } else if s.get_char(pos) == '#' {
                proof {
                    assert(stripped[0] == s@[pos as int]);
                    assert(line_is_skip(stripped));
                    assert(done.push(stripped).drop_last() =~= done);
                    done = done.push(stripped);
                }
            } else {
                proof {
                    assert(stripped[0] == s@[pos as int]);
                    assert(!line_is_skip(stripped));
                }
                let mut c: usize = pos;
                while c < line_end && s.get_char(c) != ':'
                    invariant
                        pos <= c <= line_end <= n,
                        n == s@.len(),
                        forall|x: int| pos <= x < c ==> s@[x] != ':',
                    decreases line_end - c,
                {
                    c = c + 1;
                }
                proof {
                    assert forall|x: int| 0 <= x < c - pos implies stripped[x] != ':' by {
                        assert(stripped[x] == s@[pos + x]);
                    }
                    if c < line_end {
                        assert(stripped[c - pos] == s@[c as int]);
                    }
                    lemma_first_colon_is(stripped, c - pos);
                }
                let id_str = s.substring_char(pos, c);
                proof {
                    assert(id_str@ =~= stripped.take(c - pos));
                }
                match JobDefinitionId::try_new(String::from_str(id_str)) {
                    Err(e) => {
                        proof {
                            assert(parse_line(stripped) is None);
                            lemma_fold_poisoned(
                                done + seq![stripped] + split_lines(s@.skip(next_pos as int)),
                                done.len() as int,
                            );
                        }
                        return Err(e);
                    },
                    Ok(id) => {
                        if c == line_end {
                            proof {
                                assert(parse_line(stripped) is None);
                                lemma_fold_poisoned(
                                    done + seq![stripped] + split_lines(s@.skip(next_pos as int)),
                                    done.len() as int,
                                );
                            }
                            return Err(
                                String::from_str("Missing 2nd part of colon seperated entry."),
                            );
                        }
                        let ghost rest = stripped.skip(c - pos + 1);
                        let mut c2: usize = c + 1;
                        while c2 < line_end && s.get_char(c2) != ':'
                            invariant
                                c < c2 <= line_end <= n,
                                n == s@.len(),
                                forall|x: int| c < x < c2 ==> s@[x] != ':',
                            decreases line_end - c2,
                        {
                            c2 = c2 + 1;
                        }
                        proof {
                            assert(rest =~= s@.subrange(c as int + 1, line_end as int));
                            assert forall|x: int| 0 <= x < c2 - c - 1 implies rest[x] != ':' by {
                                assert(rest[x] == s@[c + 1 + x]);
                            }
                            if c2 < line_end {
                                assert(rest[c2 - c - 1] == s@[c2 as int]);
                            }
                            lemma_first_colon_is(rest, c2 - c - 1);
                        }
                        let num_str = s.substring_char(c + 1, c2);
                        proof {
                            assert(num_str@ =~= rest.take(c2 - c - 1));
                        }
                        match parse_u64(num_str) {
                            None => {
                                proof {
                                    assert(parse_line(stripped) is None);
                                    lemma_fold_poisoned(
                                        done + seq![stripped] + split_lines(
                                            s@.skip(next_pos as int),
                                        ),
                                        done.len() as int,
                                    );
                                }
                                let mut e = String::from_str("Error converting ");
                                e.append(num_str);
                                e.append(" to a number.");
                                return Err(e);
                            },
                            Some(v) => {
                                proof {
                                    assert(parse_line(stripped) == Some((id@, v)));
                                }
                                upsert_entry(&mut entries, id, v);
                                proof {
                                    assert(done.push(stripped).drop_last() =~= done);
                                    done = done.push(stripped);
                                }
                            },
                        }
                    },
                }
            }
            pos = next_pos;
        }
        proof {
            assert(s@.skip(n as int) =~= Seq::<char>::empty());
            assert(split_lines(s@) =~= done);
        }
        Ok(RunLog { last_run: entries })
    }

    /// Serialise the record, one entry per line in entry order, each
    /// line newline-terminated.
    pub fn write_to_string(&self) -> (r: String)
        requires
            self.wf(),
        ensures
            r@ == write_spec(self.kv()),
    {
        let mut out = String::new();
        let n = self.last_run.len();
        let mut i: usize = 0;
        proof {
            reveal_strlit(":");
            reveal_strlit("\n");
            assert(self.kv().take(0) =~= Seq::<(Seq<char>, u64)>::empty());
        }
        while i < n
            invariant
                0 <= i <= n,
                n == self.last_run@.len(),
                self.wf(),
                out@ == write_spec(self.kv().take(i as int)),
            decreases n - i,
        {
            let digits = crate::text::u64_to_string(self.last_run[i].1);
            out.append(self.last_run[i].0.as_str());
            out.append(":");
            out.append(digits.as_str());
            out.append("\n");
            proof {
                reveal_strlit(":");
                reveal_strlit("\n");
                assert(":"@ =~= seq![':']);
                assert("\n"@ =~= seq!['\n']);
                assert(self.kv().take(i + 1).drop_last() =~= self.kv().take(i as int));
                assert(self.kv().take(i + 1).last() == self.kv()[i as int]);
                assert(out@ =~= write_spec(self.kv().take(i as int)) + entry_line_rep(
                    self.kv()[i as int].0,
                    self.kv()[i as int].1,
                ));
            }
            i = i + 1;
        }
        proof {
            assert(self.kv().take(n as int) =~= self.kv());
        }
        out
    }

    /// Serialising and then parsing a record yields the record back.
    pub proof fn lemma_write_read_round_trip(self)
        requires
            self.wf(),
        ensures
            parse_log_spec(write_spec(self.kv())) == Some(self@),
    {
        lemma_run_log_round_trip(self.kv());
    }
}

/// The value of the last entry holding an identifier, scanning from
/// the end; agrees with the map reading whatever the entry order.
#[verifier::loop_isolation(false)]
fn rfind_value(entries: &Vec<(JobDefinitionId, u64)>, id: &JobDefinitionId) -> (r: Option<u64>)
    ensures
        r matches Some(v) ==> alist_map(kv_of(entries@)).contains_key(id@) && alist_map(
            kv_of(entries@),
        )[id@] == v,
        r is None ==> !alist_map(kv_of(entries@)).contains_key(id@),
{
    let mut i = entries.len();
    while i > 0
        invariant
            0 <= i <= entries@.len(),
            forall|j: int| i <= j < entries@.len() ==> (#[trigger] kv_of(entries@)[j]).0 != id@,
        decreases i,
    {
        i = i - 1;
        if entries[i].0 == *id {
            proof {
                lemma_alist_map_last(kv_of(entries@), i as int);
            }
            return Some(entries[i].1);
        }
    }
    proof {
        lemma_alist_map_domain(kv_of(entries@), id@);
    }
    None
}

impl PartialEq for RunLog {
    /// Two records are equal when they hold the same last run for the
    /// same jobs, whatever the entry order.
    #[verifier::loop_isolation(false)]
    fn eq(&self, other: &Self) -> (r: bool) {
        let ghost skv = kv_of(self.last_run@);
        let ghost okv = kv_of(other.last_run@);
        let n = self.last_run.len();
        let mut i: usize = 0;
        while i < n
            invariant
                0 <= i <= n,
                n == self.last_run@.len(),
                forall|j: int|
                    0 <= j < i ==> other@.contains_key((#[trigger] skv[j]).0) && other@[skv[j].0]
                        == self@[skv[j].0],
            decreases n - i,
        {
            proof {
                lemma_alist_map_domain(skv, skv[i as int].0);
            }
            let sv = match rfind_value(&self.last_run, &self.last_run[i].0) {
                Some(v) => v,
                None => {
                    proof {
                        assert(false);
                    }
                    return false;
                },
            };
            match rfind_value(&other.last_run, &self.last_run[i].0) {
                Some(ov) => {
                    if ov != sv {
                        proof {
                            if self@ == other@ {
                                assert(other@[skv[i as int].0] == self@[skv[i as int].0]);
                            }
                        }
                        return false;
                    }
                },
                None => {
                    proof {
                        if self@ == other@ {
                            assert(other@.contains_key(skv[i as int].0));
                        }
                    }
                    return false;
                },
            }
            i = i + 1;
        }
        let m = other.last_run.len();
        let mut j: usize = 0;
        while j < m
            invariant
                0 <= j <= m,
                m == other.last_run@.len(),
                forall|x: int|
                    0 <= x < n == self.last_run@.len() ==> other@.contains_key(
                        (#[trigger] skv[x]).0,
                    ) && other@[skv[x].0] == self@[skv[x].0],
                forall|x: int| 0 <= x < j ==> self@.contains_key((#[trigger] okv[x]).0),
            decreases m - j,
        {
            proof {
                lemma_alist_map_domain(okv, okv[j as int].0);
            }
            match rfind_value(&self.last_run, &other.last_run[j].0) {
                Some(_) => {},
                None => {
                    proof {
                        if self@ == other@ {
                            assert(self@.contains_key(okv[j as int].0));
                        }
                    }
                    return false;
                },
            }
            j = j + 1;
        }
        proof {
            assert forall|k: Seq<char>| #[trigger] self@.dom().contains(k) implies
                other@.dom().contains(k) && other@[k] == self@[k] by {
                assert(self@.contains_key(k));
                lemma_alist_map_domain(skv, k);
                let x = choose|x: int| 0 <= x < skv.len() && (#[trigger] skv[x]).0 == k;
                assert(other@.contains_key(skv[x].0));
            }
            assert forall|k: Seq<char>| #[trigger] other@.dom().contains(k) implies
                self@.dom().contains(k) by {
                assert(other@.contains_key(k));
                lemma_alist_map_domain(okv, k);
                let x = choose|x: int| 0 <= x < okv.len() && (#[trigger] okv[x]).0 == k;
                assert(self@.contains_key(okv[x].0));
            }
            assert(self@.dom() =~= other@.dom());
            assert(self@ =~= other@);
        }
        true
    }
}

impl vstd::std_specs::cmp::PartialEqSpecImpl for RunLog {
    open spec fn obeys_eq_spec() -> bool {
        true
    }

    open spec fn eq_spec(&self, other: &Self) -> bool {
        self@ == other@
    }
}

impl Default for RunLog {
    /// The empty record.
    fn default() -> (r: Self)
        ensures
            r.wf(),
            r@ == Map::<Seq<char>, u64>::empty(),
    {
        let r = RunLog { last_run: Vec::new() };
        proof {
            assert(r.kv() =~= Seq::<(Seq<char>, u64)>::empty());
        }
        r
    }
}

} // verus!
