//! Turning notes into files: the names they get and the line endings they are
//! written with. Where the files go is the desktop shell's business.

use vstd::prelude::*;
use crate::chars::{
    trim, trim_start, is_ws, is_whitespace, to_chars, from_chars, trim_start_chars, slice_chars, extend_chars,
};
use crate::num::{int_text, u64_chars};

verus! {

/// One note on its way to disk. The window does the Markdown conversion,
/// because only it knows what the schema means; this side only decides what
/// the file is called and how its lines end.
#[derive(Debug, Clone, PartialEq)]
pub struct ExportNote {
    pub title: String,
    pub markdown: String,
}

/// Characters a Windows filename may not hold.
pub open spec fn forbidden_in_name(c: char) -> bool {
    c == '\\' || c == '/' || c == ':' || c == '*' || c == '?' || c == '"' || c == '<' || c == '>'
        || c == '|'
}

/// Unicode control characters (general category `Cc`), what
/// `char::is_control` reports.
pub open spec fn is_control(c: char) -> bool {
    c <= '\u{1f}' || ('\u{7f}' <= c && c <= '\u{9f}')
}

pub open spec fn clean_char(c: char) -> char {
    if forbidden_in_name(c) {
        '-'
    } else if is_control(c) {
        ' '
    } else {
        c
    }
}

pub open spec fn ascii_upper(c: char) -> char {
    if 'a' <= c && c <= 'z' {
        ((c as u32) - 32) as char
    } else {
        c
    }
}

/// Whether a stem names a Windows device (`CON`, `PRN`, `AUX`, `NUL`,
/// `COM1`..`COM9`, `LPT1`..`LPT9`), ignoring ASCII case. Such names stay device
/// names even with an extension attached.
pub open spec fn is_device_name(s: Seq<char>) -> bool {
    let u = s.map_values(|c: char| ascii_upper(c));
    ||| u == "CON"@
    ||| u == "PRN"@
    ||| u == "AUX"@
    ||| u == "NUL"@
    ||| (u.len() == 4 && (u.take(3) == "COM"@ || u.take(3) == "LPT"@) && '1' <= u[3] && u[3] <= '9')
}

/// `s` without its trailing dots and whitespace, however they mix: neither
/// may end a Windows filename.
pub open spec fn strip_tail(s: Seq<char>) -> Seq<char>
    decreases s.len(),
{
    if s.len() > 0 && (s.last() == '.' || is_ws(s.last())) {
        strip_tail(s.drop_last())
    } else {
        s
    }
}

/// The part of a title that can stand in a filename, before the length cap.
pub open spec fn stem_body(title: Seq<char>) -> Seq<char> {
    strip_tail(trim_start(title.map_values(|c: char| clean_char(c))))
}

/// At most the first 60 characters.
pub open spec fn cap60(s: Seq<char>) -> Seq<char> {
    if s.len() <= 60 {
        s
    } else {
        s.take(60)
    }
}

/// The filename stem an exported note gets: what is usable of the title,
/// cut to 60 characters and stripped again at its new end, a placeholder
/// when nothing is left, and a device name escaped.
pub open spec fn stem_of(title: Seq<char>) -> Seq<char> {
    let capped = strip_tail(cap60(stem_body(title)));
    if capped.len() == 0 {
        "未命名"@
    } else if is_device_name(capped) {
        capped.push('_')
    } else {
        capped
    }
}

/// What `strip_tail` keeps is a prefix, and ends in neither a dot nor
/// whitespace.
pub proof fn lemma_strip_tail(s: Seq<char>)
    ensures
        strip_tail(s).len() <= s.len(),
        strip_tail(s) == s.take(strip_tail(s).len() as int),
        strip_tail(s).len() == 0 || (strip_tail(s).last() != '.' && !is_ws(strip_tail(s).last())),
    decreases s.len(),
{
    if s.len() > 0 && (s.last() == '.' || is_ws(s.last())) {
        lemma_strip_tail(s.drop_last());
        assert(s.drop_last().take(strip_tail(s).len() as int) == s.take(strip_tail(s).len() as int));
    } else {
        assert(s.take(s.len() as int) == s);
    }
}

/// Drops trailing dots and whitespace.
pub fn strip_tail_chars(v: &Vec<char>) -> (r: Vec<char>)
    ensures
        r@ == strip_tail(v@),
{
    let mut n: usize = v.len();
    assert(v@.take(n as int) == v@);
    while n > 0 && (v[n - 1] == '.' || is_whitespace(v[n - 1]))
        invariant
            n <= v.len(),
            strip_tail(v@) == strip_tail(v@.take(n as int)),
        decreases n,
    {
        assert(v@.take(n as int).drop_last() == v@.take(n - 1));
        n -= 1;
    }
    let r = slice_chars(v, 0, n);
    assert(v@.subrange(0, n as int) == v@.take(n as int));
    r
}

fn clean(c: char) -> (r: char)
    ensures
        r == clean_char(c),
{
    if c == '\\' || c == '/' || c == ':' || c == '*' || c == '?' || c == '"' || c == '<' || c == '>'
        || c == '|' {
        '-'
    } else if c <= '\u{1f}' || ('\u{7f}' <= c && c <= '\u{9f}') {
        ' '
    } else {
        c
    }
}

fn upper(c: char) -> (r: char)
    ensures
        r == ascii_upper(c),
{
    if 'a' <= c && c <= 'z' {
        ((c as u8) - 32) as char
    } else {
        c
    }
}

fn lit_is(v: &Vec<char>, lit: &str) -> (r: bool)
    ensures
        r == (v@ == lit@),
{
    crate::chars::chars_eq(v, &to_chars(lit))
}

fn device_name(s: &Vec<char>) -> (b: bool)
    ensures
        b == is_device_name(s@),
{
    let mut u: Vec<char> = Vec::new();
    let mut i: usize = 0;
    let ghost up = s@.map_values(|c: char| ascii_upper(c));
    while i < s.len()
        invariant
            i <= s.len(),
            up == s@.map_values(|c: char| ascii_upper(c)),
            u@ == up.take(i as int),
        decreases s.len() - i,
    {
        u.push(upper(s[i]));
        assert(up.take(i + 1) == up.take(i as int).push(up[i as int]));
        i += 1;
    }
    assert(up.take(s.len() as int) == up);
    if lit_is(&u, "CON") || lit_is(&u, "PRN") || lit_is(&u, "AUX") || lit_is(&u, "NUL") {
        return true;
    }
    if u.len() != 4 {
        return false;
    }
    let head = slice_chars(&u, 0, 3);
    assert(u@.subrange(0, 3) == u@.take(3));
    (lit_is(&head, "COM") || lit_is(&head, "LPT")) && '1' <= u[3] && u[3] <= '9'
}

/// A note title is free text; a Windows filename is not.
pub fn safe_stem(title: &str) -> (r: String)
    ensures
        r@ == stem_of(title@),
        r@.len() > 0,
        r@.last() != '.' && !is_ws(r@.last()),
{
    proof {
        stem_is_a_legal_name(title@);
    }
    let v = to_chars(title);
    let mut cleaned: Vec<char> = Vec::new();
    let mut i: usize = 0;
    let ghost mapped = v@.map_values(|c: char| clean_char(c));
    while i < v.len()
        invariant
            i <= v.len(),
            mapped == v@.map_values(|c: char| clean_char(c)),
            cleaned@ == mapped.take(i as int),
        decreases v.len() - i,
    {
        cleaned.push(clean(v[i]));
        assert(mapped.take(i + 1) == mapped.take(i as int).push(mapped[i as int]));
        i += 1;
    }
    assert(mapped.take(v.len() as int) == mapped);

    // Trailing dots and spaces are legal in a string and not in a filename.
    let body = strip_tail_chars(&trim_start_chars(&cleaned));
    let take = if body.len() <= 60 {
        body.len()
    } else {
        60
    };
    let capped = strip_tail_chars(&slice_chars(&body, 0, take));
    assert(body@.subrange(0, take as int) == cap60(body@));
    if capped.len() == 0 {
        let r = String::from_str("未命名");
        proof {
            reveal_strlit("未命名");
        }
        return r;
    }
    let mut stem = capped;
    if device_name(&stem) {
        stem.push('_');
    }
    from_chars(&stem)
}

/// The filename for an export of a note with the given stem; `attempt` 1 is
/// the plain name, later attempts are numbered so nothing is overwritten.
pub open spec fn export_name(stem: Seq<char>, attempt: nat) -> Seq<char> {
    if attempt <= 1 {
        stem + ".md"@
    } else {
        stem + " ("@ + int_text(attempt as int) + ").md"@
    }
}

pub fn export_file_name(stem: &str, attempt: u64) -> (r: String)
    ensures
        r@ == export_name(stem@, attempt as nat),
{
    let mut out = to_chars(stem);
    if attempt <= 1 {
        extend_chars(&mut out, &to_chars(".md"));
    } else {
        extend_chars(&mut out, &to_chars(" ("));
        extend_chars(&mut out, &u64_chars(attempt));
        extend_chars(&mut out, &to_chars(").md"));
    }
    from_chars(&out)
}

/// `s` with every `"\r\n"` made a lone `'\n'`, scanning left to right.
pub open spec fn lf_only(s: Seq<char>) -> Seq<char>
    decreases s.len(),
{
    if s.len() == 0 {
        s
    } else if s.len() >= 2 && s[0] == '\r' && s[1] == '\n' {
        seq!['\n'] + lf_only(s.skip(2))
    } else {
        seq![s[0]] + lf_only(s.drop_first())
    }
}

/// `s` with every `'\n'` made `"\r\n"`.
pub open spec fn lf_to_crlf(s: Seq<char>) -> Seq<char>
    decreases s.len(),
{
    if s.len() == 0 {
        s
    } else if s[0] == '\n' {
        seq!['\r', '\n'] + lf_to_crlf(s.drop_first())
    } else {
        seq![s[0]] + lf_to_crlf(s.drop_first())
    }
}

/// Windows line endings throughout: the exported file is written for whatever
/// the user opens it in, whatever mix of endings the note had.
pub open spec fn crlf_text(s: Seq<char>) -> Seq<char> {
    lf_to_crlf(lf_only(s))
}

pub fn to_crlf(text: &str) -> (r: String)
    ensures
        r@ == crlf_text(text@),
{
    let v = to_chars(text);
    let mut lf: Vec<char> = Vec::new();
    let mut i: usize = 0;
    assert(v@.skip(0) == v@);
    while i < v.len()
        invariant
            i <= v.len(),
            lf_only(v@) == lf@ + lf_only(v@.skip(i as int)),
        decreases v.len() - i,
    {
        let ghost rest = v@.skip(i as int);
        if i + 1 < v.len() && v[i] == '\r' && v[i + 1] == '\n' {
            assert(rest[0] == '\r' && rest[1] == '\n');
            assert(rest.skip(2) == v@.skip(i + 2));
            lf.push('\n');
            i += 2;
        } else {
            assert(rest[0] == v@[i as int]);
            assert(rest.drop_first() == v@.skip(i + 1));
            lf.push(v[i]);
            i += 1;
        }
    }
    let mut out: Vec<char> = Vec::new();
    let mut j: usize = 0;
    assert(lf@.skip(0) == lf@);
    while j < lf.len()
        invariant
            j <= lf.len(),
            lf_to_crlf(lf@) == out@ + lf_to_crlf(lf@.skip(j as int)),
        decreases lf.len() - j,
    {
        let ghost rest = lf@.skip(j as int);
        assert(rest[0] == lf@[j as int]);
        assert(rest.drop_first() == lf@.skip(j + 1));
        if lf[j] == '\n' {
            out.push('\r');
            out.push('\n');
        } else {
            out.push(lf[j]);
        }
        j += 1;
    }
    from_chars(&out)
}

proof fn lemma_crlf_head(t: Seq<char>)
    ensures
        lf_to_crlf(t).len() == 0 || lf_to_crlf(t)[0] != '\n',
{
    if t.len() > 0 {
        if t[0] == '\n' {
            assert((seq!['\r', '\n'] + lf_to_crlf(t.drop_first()))[0] == '\r');
        } else {
            assert((seq![t[0]] + lf_to_crlf(t.drop_first()))[0] == t[0]);
        }
    }
}

/// Undoing line-ending conversion: reading CRLF text back gives the text
/// that was converted.
proof fn lemma_lf_only_undoes(t: Seq<char>)
    ensures
        lf_only(lf_to_crlf(t)) == t,
    decreases t.len(),
{
    if t.len() > 0 {
        let rest = t.drop_first();
        lemma_lf_only_undoes(rest);
        let c = lf_to_crlf(t);
        if t[0] == '\n' {
            assert(c == seq!['\r', '\n'] + lf_to_crlf(rest));
            assert(c.skip(2) == lf_to_crlf(rest));
            assert(lf_only(c) == seq!['\n'] + lf_only(c.skip(2)));
            assert(seq!['\n'] + rest == t);
        } else {
            assert(c == seq![t[0]] + lf_to_crlf(rest));
            lemma_crlf_head(rest);
            assert(c.drop_first() == lf_to_crlf(rest));
            if c.len() >= 2 {
                assert(c[1] == lf_to_crlf(rest)[0]);
            }
            assert(lf_only(c) == seq![c[0]] + lf_only(c.drop_first()));
            assert(seq![t[0]] + rest == t);
        }
    }
}

/// Converting exported text a second time changes nothing.
pub proof fn crlf_is_idempotent(s: Seq<char>)
    ensures
        crlf_text(crlf_text(s)) == crlf_text(s),
{
    lemma_lf_only_undoes(lf_only(s));
}

/// Every line feed is the second half of a CRLF pair.
pub open spec fn no_bare_lf(s: Seq<char>) -> bool {
    forall|i: int| 0 <= i < s.len() && #[trigger] s[i] == '\n' ==> i > 0 && s[i - 1] == '\r'
}

proof fn lemma_lf_to_crlf_pairs(t: Seq<char>)
    ensures
        no_bare_lf(lf_to_crlf(t)),
    decreases t.len(),
{
    if t.len() > 0 {
        let rest = t.drop_first();
        lemma_lf_to_crlf_pairs(rest);
        let r = lf_to_crlf(rest);
        let c = lf_to_crlf(t);
        if t[0] == '\n' {
            assert(c == seq!['\r', '\n'] + r);
            assert forall|i: int| 0 <= i < c.len() && #[trigger] c[i] == '\n' implies i > 0 && c[i - 1] == '\r' by {
                if i >= 2 {
                    assert(c[i] == r[i - 2]);
                    if i >= 3 {
                        assert(c[i - 1] == r[i - 3]);
                    }
                }
            }
        } else {
            assert(c == seq![t[0]] + r);
            assert forall|i: int| 0 <= i < c.len() && #[trigger] c[i] == '\n' implies i > 0 && c[i - 1] == '\r' by {
                if i >= 1 {
                    assert(c[i] == r[i - 1]);
                    if i >= 2 {
                        assert(c[i - 1] == r[i - 2]);
                    }
                }
            }
        }
    }
}

/// Exported text uses CRLF throughout: no line feed is left without its
/// carriage return, whatever mix of endings the note had.
pub proof fn exported_text_has_no_bare_lf(s: Seq<char>)
    ensures
        no_bare_lf(crlf_text(s)),
{
    lemma_lf_to_crlf_pairs(lf_only(s));
}

/// No character a Windows filename may not hold, and no control character.
pub open spec fn legal_chars(s: Seq<char>) -> bool {
    forall|i: int| 0 <= i < s.len() ==> !forbidden_in_name(#[trigger] s[i]) && !is_control(s[i])
}

proof fn lemma_legal_prefix(s: Seq<char>, n: int)
    requires
        legal_chars(s),
        0 <= n <= s.len(),
    ensures
        legal_chars(s.take(n)),
{
    assert forall|i: int| 0 <= i < s.take(n).len() implies !forbidden_in_name(#[trigger] s.take(n)[i]) && !is_control(
        s.take(n)[i],
    ) by {
        assert(s.take(n)[i] == s[i]);
    }
}

/// An exported note's filename stem is one Windows accepts: never empty, at
/// most 61 characters, free of the characters a filename may not hold, never
/// a device name, trimmed, and ending in neither a dot nor whitespace.
pub proof fn stem_is_a_legal_name(title: Seq<char>)
    ensures
        stem_of(title).len() > 0,
        stem_of(title).len() <= 61,
        legal_chars(stem_of(title)),
        !is_device_name(stem_of(title)),
        trim(stem_of(title)) == stem_of(title),
        stem_of(title).last() != '.' && !is_ws(stem_of(title).last()),
{
    reveal_strlit("未命名");
    reveal_strlit("CON");
    reveal_strlit("PRN");
    reveal_strlit("AUX");
    reveal_strlit("NUL");
    reveal_strlit("COM");
    reveal_strlit("LPT");
    let mapped = title.map_values(|c: char| clean_char(c));
    assert(legal_chars(mapped));
    crate::chars::lemma_trim_start_is_suffix(mapped);
    let ts = trim_start(mapped);
    let k = mapped.len() - ts.len();
    assert forall|i: int| 0 <= i < ts.len() implies !forbidden_in_name(#[trigger] ts[i]) && !is_control(ts[i]) by {
        assert(ts[i] == mapped[k + i]);
    }
    let body = strip_tail(ts);
    lemma_strip_tail(ts);
    let cut = cap60(body);
    assert(cut == ts.take(cut.len() as int));
    let capped = strip_tail(cut);
    lemma_strip_tail(cut);
    assert(capped == ts.take(capped.len() as int));
    lemma_legal_prefix(ts, capped.len() as int);
    if capped.len() == 0 {
        let s = "未命名"@;
        assert(s.len() == 3);
        assert(legal_chars(s));
        let u = s.map_values(|c: char| ascii_upper(c));
        assert(u[0] == '未');
        assert(u != "CON"@ && u != "PRN"@ && u != "AUX"@ && u != "NUL"@);
        crate::chars::lemma_trim_fixed(s);
    } else {
        assert(capped[0] == ts[0]);
        crate::chars::lemma_trim_fixed(capped);
        if is_device_name(capped) {
            let p = capped.push('_');
            let u = capped.map_values(|c: char| ascii_upper(c));
            assert(u.len() == capped.len());
            assert(capped.len() == 3 || capped.len() == 4);
            let up = p.map_values(|c: char| ascii_upper(c));
            assert(up.len() == p.len());
            assert(up[p.len() - 1] == '_');
            assert(up.len() != 3);
            assert(up != "CON"@ && up != "PRN"@ && up != "AUX"@ && up != "NUL"@);
            assert(!(up.len() == 4 && '1' <= up[3] && up[3] <= '9'));
            assert forall|i: int| 0 <= i < p.len() implies !forbidden_in_name(#[trigger] p[i]) && !is_control(p[i]) by {
                if i < capped.len() {
                    assert(p[i] == capped[i]);
                }
            }
            assert(p[0] == capped[0]);
            crate::chars::lemma_trim_fixed(p);
        }
    }
}

/// How a failed command is reported to the window: the context, a full-width
/// colon, then what went wrong.
pub fn fail(context: &str, err: &str) -> (r: String)
    ensures
        r@ == context@ + "："@ + err@,
{
    let mut out = to_chars(context);
    extend_chars(&mut out, &to_chars("："));
    extend_chars(&mut out, &to_chars(err));
    from_chars(&out)
}

/// Names the session in the server's session list; a machine without a
/// hostname just shows up as a desktop.
pub fn session_label(hostname: Option<&str>) -> (r: String)
    ensures
        r@ == match hostname {
            Some(name) => "desktop:"@ + name@,
            None => "desktop"@,
        },
{
    match hostname {
        Some(name) => {
            let mut out = to_chars("desktop:");
            extend_chars(&mut out, &to_chars(name));
            from_chars(&out)
        },
        None => String::from_str("desktop"),
    }
}

/// An export needs something to export.
pub fn export_allowed(count: usize) -> (r: Result<(), String>)
    ensures
        count > 0 <==> r is Ok,
        r matches Err(m) ==> m@ == "没有可导出的笔记"@,
{
    if count == 0 {
        Err(String::from_str("没有可导出的笔记"))
    } else {
        Ok(())
    }
}

/// The highest numbered name tried before an export falls back to a
/// time-stamped one.
pub const LAST_NUMBERED: u64 = 999;

/// Which numbered name to try after `attempt` turned out to be taken, or
/// `None` once the numbers are used up.
pub fn next_attempt(attempt: u64) -> (r: Option<u64>)
    ensures
        r == (if attempt < LAST_NUMBERED {
            Some((if attempt < 1 { 2 } else { attempt + 1 }) as u64)
        } else {
            None::<u64>
        }),
{
    if attempt < LAST_NUMBERED {
        if attempt < 1 {
            Some(2)
        } else {
            Some(attempt + 1)
        }
    } else {
        None
    }
}

} // verus!
