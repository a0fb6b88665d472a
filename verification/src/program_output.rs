//! Captured output of a job's subprocess: stdout, stderr and the exit
//! code, with byte-bounded truncation that never cuts a character in
//! half, and rendering into a notification detail.

use vstd::prelude::*;
use vstd::string::StrSliceExecFns;
use vstd::string::StringExecFns;
use crate::action::ProgramOutputFormat;
use crate::message::DetailElement;
use crate::message::FormattedString;
use crate::message::MessageDetail;
use crate::message::Style;
use crate::text::int_dec_rep;
use crate::text::i32_to_string;

verus! {

/// Bytes of the UTF-8 encoding of one character.
pub open spec fn char_bytes(c: char) -> int {
    if (c as u32) < 0x80 {
        1
    } else if (c as u32) < 0x800 {
        2
    } else if (c as u32) < 0x10000 {
        3
    } else {
        4
    }
}

/// Bytes of the UTF-8 encoding of a character sequence.
pub open spec fn utf8_len(s: Seq<char>) -> int
    decreases s.len(),
{
    if s.len() == 0 {
        0
    } else {
        utf8_len(s.drop_last()) + char_bytes(s.last())
    }
}

pub proof fn lemma_utf8_len_nonneg(s: Seq<char>)
    ensures
        0 <= utf8_len(s) <= 4 * s.len(),
    decreases s.len(),
{
    if s.len() > 0 {
        lemma_utf8_len_nonneg(s.drop_last());
    }
}

/// Byte length splits at any character index.
pub proof fn lemma_utf8_len_split(s: Seq<char>, k: int)
    requires
        0 <= k <= s.len(),
    ensures
        utf8_len(s) == utf8_len(s.take(k)) + utf8_len(s.skip(k)),
    decreases s.len(),
{
    if k == s.len() {
        assert(s.take(k) =~= s);
        assert(s.skip(k) =~= Seq::<char>::empty());
    } else {
        lemma_utf8_len_split(s.drop_last(), k);
        assert(s.drop_last().take(k) =~= s.take(k));
        assert(s.skip(k).drop_last() =~= s.drop_last().skip(k));
        assert(s.skip(k).len() > 0);
        assert(s.skip(k).last() == s.last());
    }
}

/// Byte length adds over concatenation.
pub proof fn lemma_utf8_len_concat(a: Seq<char>, b: Seq<char>)
    ensures
        utf8_len(a + b) == utf8_len(a) + utf8_len(b),
    decreases b.len(),
{
    if b.len() == 0 {
        assert(a + b =~= a);
    } else {
        lemma_utf8_len_concat(a, b.drop_last());
        assert((a + b).drop_last() =~= a + b.drop_last());
        assert((a + b).last() == b.last());
    }
}

/// `k` is the first character index whose suffix fits under `max`
/// bytes, short of dropping the whole string.
pub open spec fn chop_ok(s: Seq<char>, max: int, k: int) -> bool {
    &&& 1 <= k <= s.len() - 1
    &&& utf8_len(s.skip(k)) < max
    &&& forall|j: int| 1 <= j < k ==> utf8_len(#[trigger] s.skip(j)) >= max
}

pub proof fn lemma_chop_unique(s: Seq<char>, max: int, k1: int, k2: int)
    requires
        chop_ok(s, max, k1),
        chop_ok(s, max, k2),
    ensures
        k1 == k2,
{
}

/// What truncation to `max` bytes leaves: the string itself when it
/// already fits (or when even its final character alone does not), else
/// a `...` marker before the longest character-aligned suffix under
/// `max` bytes.
pub open spec fn trim_spec(s: Seq<char>, max: int) -> Seq<char> {
    if utf8_len(s) <= max {
        s
    } else if exists|k: int| chop_ok(s, max, k) {
        "..."@ + s.skip(choose|k: int| chop_ok(s, max, k))
    } else {
        s
    }
}

/// Truncation keeps a string as it is or yields the marker before a
/// character-aligned suffix of under `max` bytes; a truncated result
/// stays within `max + 2` bytes.
pub proof fn lemma_trim_spec_shape(s: Seq<char>, max: int)
    ensures
        trim_spec(s, max) == s || exists|k: int|
            1 <= k < s.len() && trim_spec(s, max) == "..."@ + s.skip(k) && utf8_len(s.skip(k))
                < max,
        trim_spec(s, max) == s || utf8_len(trim_spec(s, max)) <= max + 2,
{
    reveal_strlit("...");
    if utf8_len(s) > max && exists|k: int| chop_ok(s, max, k) {
        let k = choose|k: int| chop_ok(s, max, k);
        assert(trim_spec(s, max) == "..."@ + s.skip(k));
        lemma_utf8_len_concat("..."@, s.skip(k));
        assert("..."@.len() == 3);
        assert("..."@ =~= seq!['.', '.', '.']);
        assert(seq!['.', '.', '.'].drop_last() =~= seq!['.', '.']);
        assert(seq!['.', '.'].drop_last() =~= seq!['.']);
        assert(seq!['.'].drop_last() =~= Seq::<char>::empty());
        assert(utf8_len(Seq::<char>::empty()) == 0);
        assert(char_bytes('.') == 1);
        assert(utf8_len(seq!['.']) == 1);
        assert(utf8_len(seq!['.', '.']) == 2);
        assert(utf8_len(seq!['.', '.', '.']) == 3);
    }
}

/// Captured output of one subprocess run.
#[derive(Debug)]
pub struct ProgramOutput {
    pub std_out: String,
    pub std_err: String,
    pub exit_code: i32,
}

/// Truncate a string to `max_len` bytes of UTF-8: when it is over the
/// bound and a character-aligned suffix under the bound exists, keep
/// the longest such suffix behind a `...` marker.
#[verifier::loop_isolation(false)]
fn trim_string(s: &mut String, max_len: usize)
    ensures
        final(s)@ == trim_spec(old(s)@, max_len as int),
{
    let n = s.as_str().unicode_len();
    let ghost view0 = s@;
    let mut total: u128 = 0;
    let mut i: usize = 0;
    while i < n
        invariant
            0 <= i <= n,
            n == view0.len(),
            s@ == view0,
            total == utf8_len(view0.take(i as int)),
            total <= 4 * i,
        decreases n - i,
    {
        let c = s.as_str().get_char(i);
        let b: u8 = char_bytes_of(c);
        proof {
            assert(view0.take(i + 1).drop_last() =~= view0.take(i as int));
            assert(view0.take(i + 1).last() == view0[i as int]);
        }
        total = total + (b as u128);
        i = i + 1;
    }
    proof {
        assert(view0.take(n as int) =~= view0);
    }
    if total <= max_len as u128 {
        return ;
    }
    // The string is over the bound; look for the first character index
    // whose suffix fits strictly under it.
    proof {
        if view0.len() == 0 {
            assert(utf8_len(view0) == 0);
        }
    }
    let mut k: usize = 1;
    let mut prefix: u128 = char_bytes_of(s.as_str().get_char(0)) as u128;
    proof {
        assert(view0.take(1).drop_last() =~= Seq::<char>::empty());
        assert(utf8_len(view0.take(1).drop_last()) == 0);
        assert(view0.take(1).last() == view0[0]);
        assert(utf8_len(view0.take(1)) == char_bytes(view0[0]));
    }
    while k < n
        invariant
            1 <= k <= n,
            n == view0.len(),
            s@ == view0,
            n >= 1,
            total == utf8_len(view0),
            total > max_len,
            prefix == utf8_len(view0.take(k as int)),
            prefix <= 4 * k,
            forall|j: int| 1 <= j < k ==> utf8_len(#[trigger] view0.skip(j)) >= max_len,
        decreases n - k,
    {
        proof {
            lemma_utf8_len_split(view0, k as int);
            lemma_utf8_len_nonneg(view0.take(k as int));
            lemma_utf8_len_nonneg(view0.skip(k as int));
        }
        if total - prefix < max_len as u128 {
            proof {
                assert(chop_ok(view0, max_len as int, k as int));
            }
            let mut out = String::from_str("...");
            let suffix = s.as_str().substring_char(k, n);
            proof {
                assert(suffix@ =~= view0.skip(k as int));
            }
            out.append(suffix);
            *s = out;
            proof {
                let kk = choose|j: int| chop_ok(view0, max_len as int, j);
                lemma_chop_unique(view0, max_len as int, kk, k as int);
                assert(s@ =~= "..."@ + view0.skip(k as int));
                assert(s@ == trim_spec(view0, max_len as int));
            }
            return ;
        }
        let c = s.as_str().get_char(k);
        proof {
            assert(view0.take(k + 1).drop_last() =~= view0.take(k as int));
            assert(view0.take(k + 1).last() == view0[k as int]);
        }
        prefix = prefix + (char_bytes_of(c) as u128);
        k = k + 1;
    }
    proof {
        assert forall|j: int| !chop_ok(view0, max_len as int, j) by {
            if 1 <= j <= view0.len() - 1 {
                assert(utf8_len(view0.skip(j)) >= max_len);
            }
        }
    }
}

/// Bytes of the UTF-8 encoding of one character.
fn char_bytes_of(c: char) -> (r: u8)
    ensures
        r == char_bytes(c),
{
    let v = c as u32;
    if v < 0x80 {
        1
    } else if v < 0x800 {
        2
    } else if v < 0x10000 {
        3
    } else {
        4
    }
}

impl ProgramOutput {
    pub fn new(std_out: String, std_err: String, exit_code: i32) -> (r: Self)
        ensures
            r.std_out@ == std_out@,
            r.std_err@ == std_err@,
            r.exit_code == exit_code,
    {
        ProgramOutput { std_out, std_err, exit_code }
    }

    /// Truncate both captured streams to `max_len` bytes each,
    /// independently.
    pub fn trim_to(&mut self, max_len: usize)
        ensures
            final(self).std_out@ == trim_spec(old(self).std_out@, max_len as int),
            final(self).std_err@ == trim_spec(old(self).std_err@, max_len as int),
            final(self).exit_code == old(self).exit_code,
    {
        trim_string(&mut self.std_out, max_len);
        trim_string(&mut self.std_err, max_len);
    }

    pub fn get_stdout(&self) -> (r: &str)
        ensures
            r@ == self.std_out@,
    {
        self.std_out.as_str()
    }

    pub fn get_stderr(&self) -> (r: &str)
        ensures
            r@ == self.std_err@,
    {
        self.std_err.as_str()
    }

    pub fn get_exit_code(&self) -> (r: i32)
        ensures
            r == self.exit_code,
    {
        self.exit_code
    }

    pub fn is_success(&self) -> (r: bool)
        ensures
            r == (self.exit_code == 0),
    {
        self.exit_code == 0
    }

    /// Render this output (truncating both streams first) into a
    /// notification detail, per the configured format.
    pub fn to_detail(self, format: &ProgramOutputFormat) -> (r: MessageDetail)
        ensures
            to_detail_matches(
                r,
                trim_spec(self.std_out@, 500),
                trim_spec(self.std_err@, 500),
                self.exit_code as int,
                *format,
            ),
    {
        let mut me = self;
        me.trim_to(500);
        let suc = me.is_success();
        match format {
            ProgramOutputFormat::SimpleIfSuccess => {
                if suc {
                    MessageDetail::Raw(String::from_str("Program Succeeded"))
                } else {
                    to_detail_verbose(&me)
                }
            },
            ProgramOutputFormat::StdoutIfSuccess => {
                if suc {
                    let mut tl_parts: Vec<FormattedString> = Vec::new();
                    tl_parts.push(
                        FormattedString::plain(String::from_str("Program Succeeded")),
                    );
                    let mut out_parts: Vec<FormattedString> = Vec::new();
                    out_parts.push(
                        FormattedString::monospace(String::from_str(me.std_out.as_str())),
                    );
                    let mut elements: Vec<DetailElement> = Vec::new();
                    elements.push(DetailElement::Text(tl_parts));
                    elements.push(
                        DetailElement::Section {
                            title: String::from_str("Stdout"),
                            parts: out_parts,
                        },
                    );
                    MessageDetail::Formatted { raw: None, elements }
                } else {
                    to_detail_verbose(&me)
                }
            },
            ProgramOutputFormat::AlwaysDetailed => to_detail_verbose(&me),
        }
    }
}

/// The raw fallback rendering of an output: its fields spelled out.
pub open spec fn verbose_raw_rep(out: Seq<char>, err: Seq<char>, code: int) -> Seq<char> {
    "ProgramOutput { std_out: \""@ + out + "\", std_err: \""@ + err + "\", exit_code: "@
        + int_dec_rep(code) + " }"@
}

/// The headline of a verbose rendering.
pub open spec fn topline_rep(code: int) -> Seq<char> {
    if code == 0 {
        "Program successful with exit code "@ + int_dec_rep(code)
    } else {
        "Program failed with exit code "@ + int_dec_rep(code)
    }
}

/// `e` is a section of the given title holding one monospace part.
pub open spec fn is_mono_section(e: DetailElement, title: Seq<char>, body: Seq<char>) -> bool {
    e matches DetailElement::Section { title: t, parts } && t@ == title && parts@.len() == 1
        && parts@[0].text@ == body && parts@[0].style == Style::Monospace
}

/// The verbose rendering: raw fallback, a headline naming the exit
/// code, then stderr and stdout sections in monospace.
pub open spec fn is_verbose_detail(r: MessageDetail, out: Seq<char>, err: Seq<char>, code: int) -> bool {
    r matches MessageDetail::Formatted { raw, elements } && raw matches Some(rw) && rw@
        == verbose_raw_rep(out, err, code) && elements@.len() == 3 && (elements@[0] matches
    DetailElement::Text(parts) && parts@.len() == 1 && parts@[0].text@ == topline_rep(code)
        && parts@[0].style == Style::Plain) && is_mono_section(elements@[1], "Stderr"@, err)
        && is_mono_section(elements@[2], "Stdout"@, out)
}

/// The success rendering of the stdout-forwarding format: a headline
/// and the stdout section.
pub open spec fn is_stdout_success_detail(r: MessageDetail, out: Seq<char>) -> bool {
    r matches MessageDetail::Formatted { raw, elements } && raw is None && elements@.len() == 2
        && (elements@[0] matches DetailElement::Text(parts) && parts@.len() == 1
        && parts@[0].text@ == "Program Succeeded"@ && parts@[0].style == Style::Plain)
        && is_mono_section(elements@[1], "Stdout"@, out)
}

/// What `to_detail` yields for already-truncated streams, an exit code
/// and a format.
pub open spec fn to_detail_matches(
    r: MessageDetail,
    out: Seq<char>,
    err: Seq<char>,
    code: int,
    format: ProgramOutputFormat,
) -> bool {
    match format {
        ProgramOutputFormat::SimpleIfSuccess => if code == 0 {
            r matches MessageDetail::Raw(s) && s@ == "Program Succeeded"@
        } else {
            is_verbose_detail(r, out, err, code)
        },
        ProgramOutputFormat::StdoutIfSuccess => if code == 0 {
            is_stdout_success_detail(r, out)
        } else {
            is_verbose_detail(r, out, err, code)
        },
        ProgramOutputFormat::AlwaysDetailed => is_verbose_detail(r, out, err, code),
    }
}

/// Build the verbose rendering of an output.
pub fn to_detail_verbose(output: &ProgramOutput) -> (r: MessageDetail)
    ensures
        is_verbose_detail(r, output.std_out@, output.std_err@, output.exit_code as int),
{
    let code_str = i32_to_string(output.exit_code);
    let mut raw = String::from_str("ProgramOutput { std_out: \"");
    raw.append(output.std_out.as_str());
    raw.append("\", std_err: \"");
    raw.append(output.std_err.as_str());
    raw.append("\", exit_code: ");
    raw.append(code_str.as_str());
    raw.append(" }");
    let mut topline = if output.exit_code == 0 {
        String::from_str("Program successful with exit code ")
    } else {
        String::from_str("Program failed with exit code ")
    };
    topline.append(code_str.as_str());
    let mut tl_parts: Vec<FormattedString> = Vec::new();
    tl_parts.push(FormattedString::plain(topline));
    let mut err_parts: Vec<FormattedString> = Vec::new();
    err_parts.push(FormattedString::monospace(String::from_str(output.std_err.as_str())));
    let mut out_parts: Vec<FormattedString> = Vec::new();
    out_parts.push(FormattedString::monospace(String::from_str(output.std_out.as_str())));
    let mut elements: Vec<DetailElement> = Vec::new();
    elements.push(DetailElement::Text(tl_parts));
    elements.push(DetailElement::Section { title: String::from_str("Stderr"), parts: err_parts });
    elements.push(DetailElement::Section { title: String::from_str("Stdout"), parts: out_parts });
    MessageDetail::Formatted { raw: Some(raw), elements }
}

} // verus!
