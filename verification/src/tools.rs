//! The tools the model may call: which tool a name selects, and the text
//! each tool gives back, computed from what the caller read or fetched.
//! Files, processes, HTTP, IMAP and PDF extraction stay with the caller.
use vstd::prelude::*;
use crate::text::{
    CharClass, bytes_len, lemma_insert_to_multiset, chars_of, decimal, find_text, fit_chars, fit_prefix, first_occurrence, join,
    join_strings, lemma_first_occurrence, lemma_match_count_skip, lines, lines_of, match_count,
    occurs_at, push_chars, push_decimal, push_str, sort_texts, text_order, texts,
};

verus! {

/// A tool the model may call.
#[derive(Clone, Copy, PartialEq, Eq, Debug)]
pub enum Tool {
    Bash,
    Read,
    Write,
    Edit,
    GetCourses,
    GetExam,
    WatchShuiyuan,
    PdfAnalysis,
    CourseFiles,
    WatchEduinfo,
    MailFetch,
    OpenUsualWebsite,
}

/// The tool that `name` selects, if any.
pub open spec fn tool_named(name: Seq<char>) -> Option<Tool> {
    if name == "bash"@ {
        Some(Tool::Bash)
    } else if name == "read"@ {
        Some(Tool::Read)
    } else if name == "write"@ {
        Some(Tool::Write)
    } else if name == "edit"@ {
        Some(Tool::Edit)
    } else if name == "get_courses"@ {
        Some(Tool::GetCourses)
    } else if name == "get_exam"@ {
        Some(Tool::GetExam)
    } else if name == "watch_shuiyuan"@ {
        Some(Tool::WatchShuiyuan)
    } else if name == "pdf_analysis"@ {
        Some(Tool::PdfAnalysis)
    } else if name == "course_files"@ {
        Some(Tool::CourseFiles)
    } else if name == "watch_eduinfo"@ {
        Some(Tool::WatchEduinfo)
    } else if name == "mail_fetch"@ {
        Some(Tool::MailFetch)
    } else if name == "open_usual_website"@ {
        Some(Tool::OpenUsualWebsite)
    } else {
        None
    }
}

/// What a call of an unknown tool answers.
pub const UNKNOWN_TOOL: &'static str = "tool not found ,check tool name";

/// The tool that `name` selects, if any.
pub fn tool_for(name: &str) -> (t: Option<Tool>)
    ensures
        t == tool_named(name@),
{
    let n = String::from_str(name);
    if n == String::from_str("bash") {
        Some(Tool::Bash)
    } else if n == String::from_str("read") {
        Some(Tool::Read)
    } else if n == String::from_str("write") {
        Some(Tool::Write)
    } else if n == String::from_str("edit") {
        Some(Tool::Edit)
    } else if n == String::from_str("get_courses") {
        Some(Tool::GetCourses)
    } else if n == String::from_str("get_exam") {
        Some(Tool::GetExam)
    } else if n == String::from_str("watch_shuiyuan") {
        Some(Tool::WatchShuiyuan)
    } else if n == String::from_str("pdf_analysis") {
        Some(Tool::PdfAnalysis)
    } else if n == String::from_str("course_files") {
        Some(Tool::CourseFiles)
    } else if n == String::from_str("watch_eduinfo") {
        Some(Tool::WatchEduinfo)
    } else if n == String::from_str("mail_fetch") {
        Some(Tool::MailFetch)
    } else if n == String::from_str("open_usual_website") {
        Some(Tool::OpenUsualWebsite)
    } else {
        None
    }
}

/// The most bytes of tool output handed back to the model.
pub const MAX_OUTPUT_CHARS: usize = 16000;

/// What marks output that was cut.
pub const CLIPPED: &'static str = "\n<output clipped>";

/// Tool output as the model receives it: unchanged if shorter than
/// [`MAX_OUTPUT_CHARS`] bytes, else cut at the last character boundary within
/// that many bytes and marked as cut.
pub open spec fn clipped(text: Seq<char>) -> Seq<char> {
    if bytes_len(text) < MAX_OUTPUT_CHARS {
        text
    } else {
        text.take(fit_chars(text, MAX_OUTPUT_CHARS as int) as int) + CLIPPED@
    }
}

/// The characters that fit in `limit` bytes are the longest start of the
/// text whose bytes fit.
pub proof fn lemma_fit_chars(t: Seq<char>, limit: int)
    requires
        limit >= 0,
    ensures
        fit_chars(t, limit) <= t.len(),
        bytes_len(t.take(fit_chars(t, limit) as int)) <= limit,
        fit_chars(t, limit) < t.len() ==> bytes_len(t.take(fit_chars(t, limit) + 1int)) > limit,
    decreases t.len(),
{
    if t.len() > 0 {
        let w = crate::text::utf8_width(t[0]);
        let rest = t.drop_first();
        if w <= limit {
            lemma_fit_chars(rest, limit - w);
            let f = fit_chars(rest, limit - w) as int;
            assert(t.take(f + 1).drop_first() == rest.take(f));
            if f < rest.len() {
                assert(t.take(f + 2).drop_first() == rest.take(f + 1));
            }
        } else {
            assert(t.take(0).len() == 0);
            assert(t.take(1).drop_first().len() == 0);
        }
    } else {
        assert(t.take(0).len() == 0);
    }
}

/// Clipping keeps a text shorter than [`MAX_OUTPUT_CHARS`] bytes whole; of
/// any other text it keeps the longest start that fits in that many bytes
/// and marks the cut.
pub proof fn lemma_clipped(text: Seq<char>)
    ensures
        bytes_len(text) < MAX_OUTPUT_CHARS ==> clipped(text) == text,
        bytes_len(text) >= MAX_OUTPUT_CHARS ==> {
            let kept = text.take(fit_chars(text, MAX_OUTPUT_CHARS as int) as int);
            &&& clipped(text) == kept + CLIPPED@
            &&& bytes_len(kept) <= MAX_OUTPUT_CHARS
            &&& kept.len() < text.len() ==> bytes_len(text.take(kept.len() + 1int)) > MAX_OUTPUT_CHARS
        },
{
    lemma_fit_chars(text, MAX_OUTPUT_CHARS as int);
}

/// Tool output as the model receives it.
pub fn clip(text: &str) -> (r: String)
    ensures
        r@ == clipped(text@),
{
    let v = chars_of(text);
    let (k, short) = fit_prefix(v.as_slice(), MAX_OUTPUT_CHARS);
    let mut out = String::new();
    if short {
        push_chars(&mut out, v.as_slice(), 0, v.len());
        assert(v@.subrange(0, v@.len() as int) == v@);
    } else {
        push_chars(&mut out, v.as_slice(), 0, k);
        assert(v@.subrange(0, k as int) == v@.take(k as int));
        push_str(&mut out, CLIPPED);
    }
    out
}

/// The outcome of an edit: the new file text, or why the edit was refused.
pub open spec fn edited(path: Seq<char>, content: Seq<char>, old: Seq<char>, new: Seq<char>) -> Result<
    Seq<char>,
    Seq<char>,
> {
    let n = match_count(content, old);
    if n == 0 {
        Err("old_context 在 "@ + path + " 中未找到"@)
    } else if n > 1 {
        Err("old_context 在 "@ + path + " 中匹配到 "@ + decimal(n) + " 处，需唯一"@)
    } else {
        let i = first_occurrence(content, old);
        Ok(content.take(i) + new + content.skip(i + old.len()))
    }
}

/// Where a pattern occurs at all, its first occurrence is an occurrence.
pub proof fn lemma_first_occurrence_occurs(s: Seq<char>, p: Seq<char>)
    requires
        match_count(s, p) > 0,
    ensures
        occurs_at(s, p, first_occurrence(s, p)),
    decreases s.len(),
{
    if p.len() == 0 {
        assert(s.take(0) == p);
        assert(s.subrange(0, 0) == p);
    } else if s.take(p.len() as int) == p {
        assert(s.subrange(0, p.len() as int) == s.take(p.len() as int));
    } else {
        lemma_first_occurrence_occurs(s.drop_first(), p);
        let f = first_occurrence(s.drop_first(), p);
        assert(s.drop_first().subrange(f, f + p.len()) == s.subrange(f + 1, f + 1 + p.len()));
    }
}

/// An edit goes through only when `old` occurs exactly once in `content`,
/// counting as `str::matches` does; then the new text is `content` with that
/// one occurrence replaced by `new`. Two or more occurrences are refused with
/// their number, none with a note that it was not found.
pub proof fn lemma_edit_needs_one_match(path: Seq<char>, content: Seq<char>, old: Seq<char>, new: Seq<char>)
    ensures
        match_count(content, old) == 0 ==> edited(path, content, old, new) == Err::<Seq<char>, Seq<char>>(
            "old_context 在 "@ + path + " 中未找到"@,
        ),
        match_count(content, old) > 1 ==> edited(path, content, old, new) == Err::<Seq<char>, Seq<char>>(
            "old_context 在 "@ + path + " 中匹配到 "@ + decimal(match_count(content, old)) + " 处，需唯一"@,
        ),
        edited(path, content, old, new) is Ok <==> match_count(content, old) == 1,
        match_count(content, old) == 1 ==> exists|i: int|
            #![trigger occurs_at(content, old, i)]
            occurs_at(content, old, i) && edited(path, content, old, new) == Ok::<Seq<char>, Seq<char>>(
                content.take(i) + new + content.skip(i + old.len()),
            ),
{
    if match_count(content, old) == 1 {
        lemma_first_occurrence_occurs(content, old);
        let i = first_occurrence(content, old);
        assert(occurs_at(content, old, i));
    }
}

/// The file text after replacing `old_context` by `new_context` in `content`
/// (the text of the file at `path`), which is done only when `old_context`
/// occurs exactly once.
pub fn apply_edit(path: &str, content: &str, old_context: &str, new_context: &str) -> (r: Result<
    String,
    String,
>)
    ensures
        match r {
            Ok(t) => edited(path@, content@, old_context@, new_context@) == Ok::<Seq<char>, Seq<char>>(t@),
            Err(e) => edited(path@, content@, old_context@, new_context@) == Err::<Seq<char>, Seq<char>>(e@),
        },
        r is Ok <==> match_count(content@, old_context@) == 1,
        match_count(content@, old_context@) > 1 ==> (r matches Err(e) && e@ == "old_context 在 "@ + path@
            + " 中匹配到 "@ + decimal(match_count(content@, old_context@)) + " 处，需唯一"@),
{
    proof {
        lemma_edit_needs_one_match(path@, content@, old_context@, new_context@);
    }
    let v = chars_of(content);
    let p = chars_of(old_context);
    let ghost s = v@;
    let count: usize;
    let mut first: usize = 0;
    if p.len() == 0 {
        assert(occurs_at(s, p@, 0)) by {
            assert(s.subrange(0, 0) == p@);
        }
        proof {
            lemma_first_occurrence(s, p@, 0);
        }
        if v.len() > 0 {
            let mut e = String::from_str("old_context 在 ");
            push_str(&mut e, path);
            push_str(&mut e, " 中匹配到 ");
            push_decimal(&mut e, v.len() as u128 + 1);
            push_str(&mut e, " 处，需唯一");
            return Err(e);
        }
        count = 1;
    } else {
        let mut n: usize = 0;
        let mut pos: usize = 0;
        let mut done = false;
        let len: usize = v.len();
        assert(s.skip(0) == s);
        while !done
            invariant
                p@.len() > 0,
                len == s.len(),
                s == v@,
                0 <= pos <= s.len(),
                n <= pos,
                match_count(s, p@) == n + match_count(s.skip(pos as int), p@),
                done ==> match_count(s.skip(pos as int), p@) == 0,
                n > 0 ==> first + p@.len() <= pos && first_occurrence(s, p@) == first,
                n == 0 ==> forall|j: int| 0 <= j < pos ==> !occurs_at(s, p@, j),
            decreases s.len() - pos + if done {
                0int
            } else {
                1int
            },
        {
            let ghost t = s.skip(pos as int);
            match find_text(v.as_slice(), p.as_slice(), pos) {
                None => {
                    proof {
                        assert forall|j: int| 0 <= j < t.len() implies !occurs_at(t, p@, j) by {
                            assert(!occurs_at(s, p@, pos + j));
                            if j + p@.len() <= t.len() {
                                assert(t.subrange(j, j + p@.len()) == s.subrange(
                                    pos + j,
                                    pos + j + p@.len(),
                                ));
                            }
                        }
                        lemma_match_count_skip(t, p@, t.len() as int);
                        assert(t.skip(t.len() as int).len() == 0);
                    }
                    done = true;
                },
                Some(i) => {
                    proof {
                        assert forall|j: int| 0 <= j < i - pos implies !occurs_at(t, p@, j) by {
                            assert(!occurs_at(s, p@, pos + j));
                            if j + p@.len() <= t.len() {
                                assert(t.subrange(j, j + p@.len()) == s.subrange(
                                    pos + j,
                                    pos + j + p@.len(),
                                ));
                            }
                        }
                        lemma_match_count_skip(t, p@, i - pos);
                        let u = t.skip(i - pos);
                        assert(u == s.skip(i as int));
                        assert(u.take(p@.len() as int) == s.subrange(i as int, i + p@.len()));
                        assert(u.skip(p@.len() as int) == s.skip(i + p@.len()));
                        if n == 0 {
                            lemma_first_occurrence(s, p@, i as int);
                        }
                    }
                    if n == 0 {
                        first = i;
                    }
                    n = n + 1;
                    pos = i + p.len();
                },
            }
        }
        if n == 0 {
            let mut e = String::from_str("old_context 在 ");
            push_str(&mut e, path);
            push_str(&mut e, " 中未找到");
            return Err(e);
        }
        if n > 1 {
            let mut e = String::from_str("old_context 在 ");
            push_str(&mut e, path);
            push_str(&mut e, " 中匹配到 ");
            push_decimal(&mut e, n as u128);
            push_str(&mut e, " 处，需唯一");
            return Err(e);
        }
        count = n;
    }
    assert(count == 1);
    let mut out = String::new();
    push_chars(&mut out, v.as_slice(), 0, first);
    push_str(&mut out, new_context);
    push_chars(&mut out, v.as_slice(), first + p.len(), v.len());
    assert(v@.subrange(0, first as int) == s.take(first as int));
    assert(v@.subrange(first + p@.len(), v@.len() as int) == s.skip(first + p@.len()));
    Ok(out)
}

/// The lines `ls[lo..hi]`, each as `"{number}: {line}\n"` numbered from
/// `lo + 1`.
pub open spec fn numbered(ls: Seq<Seq<char>>, lo: int, hi: int) -> Seq<char>
    decreases hi - lo,
{
    if hi <= lo {
        seq![]
    } else {
        numbered(ls, lo, hi - 1) + decimal(hi as nat) + ": "@ + ls[hi - 1] + "\n"@
    }
}

/// The numbered lines `lo..hi` are, in order, one entry for every line of
/// that range, empty lines included: its number from 1, `": "`, the line,
/// and a line break.
pub proof fn lemma_numbered_each_line(ls: Seq<Seq<char>>, lo: int, hi: int)
    requires
        lo <= hi,
    ensures
        numbered(ls, lo, hi) == Seq::new(
            (hi - lo) as nat,
            |j: int| decimal((lo + j + 1) as nat) + ": "@ + ls[lo + j] + "\n"@,
        ).flatten(),
    decreases hi - lo,
{
    let f = |j: int| decimal((lo + j + 1) as nat) + ": "@ + ls[lo + j] + "\n"@;
    if hi > lo {
        lemma_numbered_each_line(ls, lo, hi - 1);
        let shorter = Seq::new((hi - 1 - lo) as nat, f);
        assert(Seq::new((hi - lo) as nat, f) =~= shorter.push(f(hi - 1 - lo)));
        shorter.lemma_flatten_push(f(hi - 1 - lo));
    } else {
        assert(Seq::new(0, f) =~= Seq::<Seq<char>>::empty());
    }
}

/// What the read tool gives for a file of text `content`, read from line
/// `offset` (from 1; missing or 0 means 1) for `limit` lines (missing means
/// to the end): the numbered lines, clipped, or a note that the offset is
/// past the end.
pub open spec fn read_report(content: Seq<char>, offset: Option<u64>, limit: Option<u64>) -> Seq<
    char,
> {
    let ls = lines(content);
    let from = match offset {
        Some(o) => if o < 1 {
            1u64
        } else {
            o
        },
        None => 1u64,
    };
    let start = (from as usize) - 1;
    if start >= ls.len() {
        "文件共 "@ + decimal(ls.len()) + " 行，offset "@ + decimal((from as usize) as nat)
            + " 已超出范围"@
    } else {
        let end = match limit {
            Some(l) => if start + (l as usize) < ls.len() {
                start + (l as usize)
            } else {
                ls.len() as int
            },
            None => ls.len() as int,
        };
        clipped(numbered(ls, start, end))
    }
}

/// What the read tool gives for the text `content` of a file.
pub fn read_lines(content: &str, offset: Option<u64>, limit: Option<u64>) -> (r: String)
    requires
        ({
            let from = match offset {
                Some(o) => if o < 1 {
                    1u64
                } else {
                    o
                },
                None => 1u64,
            };
            &&& (from as usize) >= 1
            &&& (from as usize) - 1 < lines(content@).len() ==> (limit matches Some(l) ==> (from as usize)
                - 1 + (l as usize) <= usize::MAX)
        }),
    ensures
        r@ == read_report(content@, offset, limit),
        ({
            let ls = lines(content@);
            let from = match offset {
                Some(o) => if o < 1 {
                    1u64
                } else {
                    o
                },
                None => 1u64,
            };
            let start = (from as usize) - 1;
            let end = match limit {
                Some(l) => if start + (l as usize) < ls.len() {
                    start + (l as usize)
                } else {
                    ls.len() as int
                },
                None => ls.len() as int,
            };
            start < ls.len() ==> r@ == clipped(
                Seq::new(
                    (end - start) as nat,
                    |j: int| decimal((start + j + 1) as nat) + ": "@ + ls[start + j] + "\n"@,
                ).flatten(),
            )
        }),
{
    let ls = lines_of(content);
    let from: u64 = match offset {
        Some(o) => if o < 1 {
            1
        } else {
            o
        },
        None => 1,
    };
    let from_index = #[verifier::truncate] (from as usize);
    let start = from_index - 1;
    if start >= ls.len() {
        let mut t = String::from_str("文件共 ");
        push_decimal(&mut t, ls.len() as u128);
        push_str(&mut t, " 行，offset ");
        push_decimal(&mut t, from_index as u128);
        push_str(&mut t, " 已超出范围");
        return t;
    }
    let end: usize = match limit {
        Some(l) => {
            let l_index = #[verifier::truncate] (l as usize);
            if start + l_index < ls.len() {
                start + l_index
            } else {
                ls.len()
            }
        },
        None => ls.len(),
    };
    let ghost lv = lines(content@);
    let mut text = String::new();
    let mut k: usize = start;
    while k < end
        invariant
            start <= k <= end <= ls@.len(),
            ls@.len() == lv.len(),
            forall|m: int| 0 <= m < ls@.len() ==> (#[trigger] ls@[m])@ == lv[m],
            text@ == numbered(lv, start as int, k as int),
        decreases end - k,
    {
        push_decimal(&mut text, k as u128 + 1);
        push_str(&mut text, ": ");
        push_str(&mut text, ls[k].as_str());
        push_str(&mut text, "\n");
        k += 1;
    }
    proof {
        lemma_numbered_each_line(lv, start as int, end as int);
    }
    clip(text.as_str())
}

/// What the read tool gives for a directory holding entries named `names`
/// (a directory's name ending in `/`): the names in order, one per line,
/// clipped.
pub fn listing(names: Vec<String>) -> (r: String)
    ensures
        r@ == clipped(join(texts(names@).sort_by(text_order()), "\n"@)),
{
    let sorted = sort_texts(names);
    let joined = join_strings(sorted.as_slice(), "\n");
    clip(joined.as_str())
}

/// Whether `b` is the ASCII code of a hexadecimal digit.
pub open spec fn is_hex(b: u8) -> bool {
    (48 <= b && b <= 57) || (65 <= b && b <= 70) || (97 <= b && b <= 102)
}

/// The value of the hexadecimal digit with ASCII code `b`.
pub open spec fn hex_value(b: u8) -> nat {
    if b <= 57 {
        (b - 48) as nat
    } else if b <= 70 {
        (b - 55) as nat
    } else {
        (b - 87) as nat
    }
}

/// The bytes `b` with each `%` followed by two hexadecimal digits replaced
/// by the byte they spell, and each other `+` by a space.
pub open spec fn pct_decode(b: Seq<u8>) -> Seq<u8>
    decreases b.len(),
{
    if b.len() == 0 {
        seq![]
    } else if b[0] == 37 && 2 < b.len() && is_hex(b[1]) && is_hex(b[2]) {
        seq![(hex_value(b[1]) * 16 + hex_value(b[2])) as u8] + pct_decode(b.skip(3))
    } else {
        seq![
            if b[0] == 43 {
                32u8
            } else {
                b[0]
            },
        ] + pct_decode(b.skip(1))
    }
}

/// The text that `String::from_utf8_lossy` makes of the bytes `b`.
pub uninterp spec fn utf8_lossy(b: Seq<u8>) -> Seq<char>;

/// Calls `String::from_utf8_lossy`, which std documents as decoding the
/// bytes as UTF-8 with each invalid sequence replaced by U+FFFD: valid UTF-8
/// comes back unchanged.
#[verifier::external_body]
pub(crate) fn from_utf8_lossy(b: &[u8]) -> (s: String)
    ensures
        s@ == utf8_lossy(b@),
        vstd::utf8::valid_utf8(b@) ==> s@ == vstd::utf8::decode_utf8(b@),
{
    String::from_utf8_lossy(b).into_owned()
}

/// What [`percent_decode`] makes of `text`: the text itself if it has no `%`,
/// else its UTF-8 bytes decoded as in a URL (see [`pct_decode`]) and read
/// back as UTF-8.
pub open spec fn percent_decoded(text: Seq<char>) -> Seq<char> {
    if !text.contains('%') {
        text
    } else {
        utf8_lossy(pct_decode(vstd::utf8::encode_utf8(text)))
    }
}

fn hex_digit(b: u8) -> (r: Option<u8>)
    ensures
        r is Some <==> is_hex(b),
        r matches Some(v) ==> v == hex_value(b) && v < 16,
{
    if 48 <= b && b <= 57 {
        Some(b - 48)
    } else if 65 <= b && b <= 70 {
        Some(b - 55)
    } else if 97 <= b && b <= 102 {
        Some(b - 87)
    } else {
        None
    }
}

/// Decodes the `%` escapes of a file name as Canvas sends it. A text
/// without `%` comes back unchanged; where the decoded bytes are valid
/// UTF-8, the result is exactly the text they encode.
pub fn percent_decode(text: &str) -> (r: String)
    ensures
        r@ == percent_decoded(text@),
        !text@.contains('%') ==> r@ == text@,
        text@.contains('%') && vstd::utf8::valid_utf8(pct_decode(vstd::utf8::encode_utf8(text@))) ==> r@
            == vstd::utf8::decode_utf8(pct_decode(vstd::utf8::encode_utf8(text@))),
{
    let chars = chars_of(text);
    let at = crate::text::find_char(chars.as_slice(), 0, chars.len(), '%');
    if at == chars.len() {
        assert(chars@.subrange(0, chars@.len() as int) == chars@);
        assert(!text@.contains('%'));
        let mut out = String::new();
        push_chars(&mut out, chars.as_slice(), 0, chars.len());
        return out;
    }
    assert(text@[at as int] == '%');
    let b = text.as_bytes();
    let ghost bytes = b@;
    let mut out: Vec<u8> = Vec::new();
    let mut i: usize = 0;
    assert(bytes.skip(0) == bytes);
    while i < b.len()
        invariant
            0 <= i <= b@.len(),
            bytes == b@,
            pct_decode(bytes) == out@ + pct_decode(bytes.skip(i as int)),
        decreases b@.len() - i,
    {
        let ghost rest = bytes.skip(i as int);
        let mut step: usize = 1;
        if b[i] == 37 && b.len() > 2 && i < b.len() - 2 {
            match (hex_digit(b[i + 1]), hex_digit(b[i + 2])) {
                (Some(hi), Some(lo)) => {
                    out.push(hi * 16 + lo);
                    step = 3;
                },
                _ => {
                    out.push(b[i]);
                },
            }
        } else if b[i] == 43 {
            out.push(32);
        } else {
            out.push(b[i]);
        }
        assert(rest.skip(step as int) == bytes.skip(i + step));
        assert(rest[0] == bytes[i as int]);
        i += step;
    }
    from_utf8_lossy(out.as_slice())
}

/// A file of a Canvas course, as the file list gives it.
pub struct CanvasFile {
    pub id: u64,
    pub display_name: String,
    pub filename: Option<String>,
    pub content_type: Option<String>,
    pub size: Option<u64>,
    pub url: Option<String>,
}

/// The name of a file: its display name, unless that is blank, then its file
/// name, then 「(未命名)」.
pub open spec fn file_name_of(f: CanvasFile) -> Seq<char> {
    if crate::text::trim(f.display_name@).len() == 0 {
        match f.filename {
            Some(n) => n@,
            None => "(未命名)"@,
        }
    } else {
        f.display_name@
    }
}

/// Whether `t` is a path made of one plain name on every platform: not
/// empty, without `/`, `\\` or `:`, and neither `.` nor `..`.
pub open spec fn plain_name(t: Seq<char>) -> bool {
    &&& t.len() > 0
    &&& !t.contains('/')
    &&& !t.contains('\\')
    &&& !t.contains(':')
    &&& t != "."@
    &&& t != ".."@
}

/// What `Path::file_name` gives for a path: its last component, if it has
/// one that is a name.
///
/// Calls `std::path::Path::file_name` and reads the name back with
/// `OsStr::to_string_lossy`. Which characters separate components depends
/// on the platform (on Windows also `\\` and drive prefixes), so the
/// result is not named. What holds on every platform: a name is a
/// non-empty piece of the path's text without `/` (components are slices of
/// the path, which is valid UTF-8, so reading them back changes nothing),
/// and a path that is one plain name comes back whole.
#[verifier::external_body]
fn path_file_name(path: &str) -> (r: Option<String>)
    ensures
        r matches Some(n) ==> n@.len() > 0 && !n@.contains('/') && crate::text::contains_text(path@, n@)
            && (plain_name(path@) ==> n@ == path@),
        r is None ==> !plain_name(path@),
{
    std::path::Path::new(path).file_name().map(|name| name.to_string_lossy().into_owned())
}

/// The local name of a file: `file_name` if there is one and it is not
/// empty, else `canvas-file-` and the file's id.
pub fn local_name_from(file_name: Option<String>, id: u64) -> (r: String)
    ensures
        r@ == match file_name {
            Some(n) => if n@.len() > 0 {
                n@
            } else {
                "canvas-file-"@ + decimal(id as nat)
            },
            None => "canvas-file-"@ + decimal(id as nat),
        },
{
    match file_name {
        Some(n) => {
            if n.as_str().is_empty() {
                let mut t = String::from_str("canvas-file-");
                push_decimal(&mut t, id as u128);
                t
            } else {
                n
            }
        },
        None => {
            let mut t = String::from_str("canvas-file-");
            push_decimal(&mut t, id as u128);
            t
        },
    }
}

impl CanvasFile {
    /// The name of the file.
    pub fn name(&self) -> (n: &str)
        ensures
            n@ == file_name_of(*self),
    {
        if crate::text::trimmed(self.display_name.as_str()).as_str().is_empty() {
            match &self.filename {
                Some(n) => n.as_str(),
                None => "(未命名)",
            }
        } else {
            self.display_name.as_str()
        }
    }

    /// The name to save the file under: the last path component of its
    /// decoded name, or `canvas-file-` and its id when that gives nothing.
    /// It is a non-empty piece of the decoded name without `/`, and the
    /// decoded name itself when that is one plain name.
    pub fn local_name(&self) -> (r: String)
        ensures
            r@.len() > 0,
            r@ == "canvas-file-"@ + decimal(self.id as nat) || (!r@.contains('/')
                && crate::text::contains_text(percent_decoded(file_name_of(*self)), r@)),
            plain_name(percent_decoded(file_name_of(*self))) ==> r@ == percent_decoded(file_name_of(*self)),
    {
        let decoded = percent_decode(self.name());
        let component = path_file_name(decoded.as_str());
        local_name_from(component, self.id)
    }
}

/// The address of page `page` of the list at `path` of the API at `base`.
pub fn page_url(base: &str, path: &str, page: usize) -> (r: String)
    ensures
        r@ == base@ + path@ + "?per_page=100&page="@ + decimal(page as nat),
{
    let mut t = String::from_str(base);
    push_str(&mut t, path);
    push_str(&mut t, "?per_page=100&page=");
    push_decimal(&mut t, page as u128);
    t
}

/// Whether a segment of a `Link` header entry is `rel="next"`, once trimmed.
pub open spec fn is_next_rel(seg: Seq<char>) -> bool {
    crate::text::trim(seg) == "rel=\"next\""@
}

/// Whether any of the `;`-separated segments of `s` is `rel="next"`.
pub open spec fn any_next_rel(s: Seq<char>) -> bool
    decreases s.len(),
{
    let j = crate::text::first_of(s, ';');
    is_next_rel(s.take(j as int)) || (j < s.len() && any_next_rel(s.skip(j + 1int)))
}

/// Whether an entry of a `Link` header is the link to the next page: one of
/// the segments after its address is `rel="next"`.
pub open spec fn entry_is_next(entry: Seq<char>) -> bool {
    let j = crate::text::first_of(entry, ';');
    j < entry.len() && any_next_rel(entry.skip(j + 1int))
}

/// The address of an entry of a `Link` header: its first segment, trimmed,
/// without the `<` before it and the `>` after it.
pub open spec fn entry_target(entry: Seq<char>) -> Seq<char> {
    crate::text::strip_end(
        CharClass::AngleClose,
        crate::text::strip_start(
            CharClass::AngleOpen,
            crate::text::trim(entry.take(crate::text::first_of(entry, ';') as int)),
        ),
    )
}

/// The address of the first entry of the `Link` header `h` (entries are
/// separated by `,`) that links to the next page, if any.
pub open spec fn next_link_of(h: Seq<char>) -> Option<Seq<char>>
    decreases h.len(),
{
    let i = crate::text::first_of(h, ',');
    let entry = h.take(i as int);
    if entry_is_next(entry) {
        Some(entry_target(entry))
    } else if i < h.len() {
        next_link_of(h.skip(i + 1int))
    } else {
        None
    }
}

fn segments_next_rel(v: &[char], lo: usize, hi: usize) -> (b: bool)
    requires
        lo <= hi <= v@.len(),
    ensures
        b == any_next_rel(v@.subrange(lo as int, hi as int)),
{
    let mut k: usize = lo;
    loop
        invariant
            lo <= k <= hi <= v@.len(),
            any_next_rel(v@.subrange(lo as int, hi as int)) == any_next_rel(
                v@.subrange(k as int, hi as int),
            ),
        decreases hi - k,
    {
        let ghost rest = v@.subrange(k as int, hi as int);
        let j: usize = crate::text::find_char(v, k, hi, ';');
        assert(rest.take(j - k) == v@.subrange(k as int, j as int));
        let (a, b) = crate::text::trim_bounds(v, k, j);
        if crate::text::range_eq(v, a, b, "rel=\"next\"") {
            return true;
        }
        if j == hi {
            return false;
        }
        assert(rest.skip(j - k + 1) == v@.subrange(j + 1, hi as int));
        k = j + 1;
    }
}

/// The address of the next page that a `Link` header gives, if any.
pub fn next_link(header: &str) -> (r: Option<String>)
    ensures
        match r {
            Some(t) => next_link_of(header@) == Some(t@),
            None => next_link_of(header@) is None,
        },
{
    let v = chars_of(header);
    let n = v.len();
    let mut start: usize = 0;
    assert(v@.subrange(0, n as int) == header@);
    loop
        invariant
            0 <= start <= n,
            n == v@.len(),
            v@ == header@,
            next_link_of(header@) == next_link_of(v@.subrange(start as int, n as int)),
        decreases n - start,
    {
        let ghost rest = v@.subrange(start as int, n as int);
        let i: usize = crate::text::find_char(v.as_slice(), start, n, ',');
        let ghost entry = rest.take(i - start);
        assert(entry == v@.subrange(start as int, i as int));
        let j: usize = crate::text::find_char(v.as_slice(), start, i, ';');
        if j < i {
            assert(entry.skip(j - start + 1) == v@.subrange(j + 1, i as int));
            if segments_next_rel(v.as_slice(), j + 1, i) {
                assert(entry.take(j - start) == v@.subrange(start as int, j as int));
                let (a, b) = crate::text::trim_bounds(v.as_slice(), start, j);
                let c: usize = crate::text::strip_start_at(CharClass::AngleOpen, v.as_slice(), a, b);
                let d: usize = crate::text::strip_end_at(CharClass::AngleClose, v.as_slice(), c, b);
                return Some(crate::text::string_from(v.as_slice(), c, d));
            }
        }
        if i == n {
            return None;
        }
        assert(rest.skip(i - start + 1) == v@.subrange(i + 1, n as int));
        start = i + 1;
    }
}

/// The text that `str::to_lowercase` makes of `s` (Unicode lowercase
/// mapping, the same on every machine).
pub uninterp spec fn lowercase(s: Seq<char>) -> Seq<char>;

/// Calls `str::to_lowercase`, which std documents as the lowercase
/// equivalent of the text by Unicode's `Lowercase` mapping.
#[verifier::external_body]
pub(crate) fn to_lowercase(s: &str) -> (r: String)
    ensures
        r@ == lowercase(s@),
{
    s.to_lowercase()
}

/// A file's name and display name, lowercased.
pub open spec fn lowered(f: CanvasFile) -> (Seq<char>, Seq<char>) {
    (lowercase(file_name_of(f)), lowercase(f.display_name@))
}

/// Whether either of a file's (lowercased) `names` contains `needle`.
pub open spec fn names_match(names: (Seq<char>, Seq<char>), needle: Seq<char>) -> bool {
    crate::text::contains_text(names.0, needle) || crate::text::contains_text(names.1, needle)
}

/// The positions of the files whose `names` match `needle`, in order.
pub open spec fn matching(names: Seq<(Seq<char>, Seq<char>)>, needle: Seq<char>) -> Seq<int>
    decreases names.len(),
{
    if names.len() == 0 {
        seq![]
    } else if names_match(names.last(), needle) {
        matching(names.drop_last(), needle).push(names.len() - 1)
    } else {
        matching(names.drop_last(), needle)
    }
}

/// The position of the first file with the id `id`, or `files.len()`.
pub open spec fn first_with_id(files: Seq<CanvasFile>, id: nat) -> int
    decreases files.len(),
{
    if files.len() == 0 {
        0
    } else if files[0].id == id {
        0
    } else {
        1 + first_with_id(files.drop_first(), id)
    }
}

/// One line of the list of ambiguous matches.
pub open spec fn match_line(f: CanvasFile) -> Seq<char> {
    "  ["@ + decimal(f.id as nat) + "] "@ + f.display_name@ + "\n"@
}

/// The lines of the files at positions `ix`.
pub open spec fn match_lines(files: Seq<CanvasFile>, ix: Seq<int>) -> Seq<char>
    decreases ix.len(),
{
    if ix.len() == 0 {
        seq![]
    } else {
        match_lines(files, ix.drop_last()) + match_line(files[ix.last()])
    }
}

/// Which file `target` picks out of `files`, whose names lowercased are
/// `names`, with `needle` the lowercased target: a number picks the file
/// with that id; other text picks the one file one of whose names contains
/// the needle. Else the reason nothing is picked.
pub open spec fn picked_by(
    files: Seq<CanvasFile>,
    target: Seq<char>,
    needle: Seq<char>,
    names: Seq<(Seq<char>, Seq<char>)>,
) -> Result<int, Seq<char>> {
    match crate::text::parse_unsigned(target, u64::MAX as nat) {
        Some(id) => {
            let i = first_with_id(files, id);
            if i < files.len() {
                Ok(i)
            } else {
                Err("课程里没有 id 为 "@ + decimal(id) + " 的文件"@)
            }
        },
        None => {
            let ix = matching(names, needle);
            if ix.len() == 0 {
                Err("没有匹配「"@ + target + "」的文件，可先用 action=list 查看"@)
            } else if ix.len() == 1 {
                Ok(ix[0])
            } else {
                Err("匹配到 "@ + decimal(ix.len()) + " 个文件，请用更精确的名字或文件 id：\n"@
                    + match_lines(files, ix))
            }
        },
    }
}

/// Which file `target` picks out of `files`: as [`picked_by`], ignoring
/// case.
pub open spec fn picked(files: Seq<CanvasFile>, target: Seq<char>) -> Result<int, Seq<char>> {
    picked_by(files, target, lowercase(target), files.map_values(|f: CanvasFile| lowered(f)))
}

/// The texts of pairs of strings.
pub open spec fn pair_texts(names: Seq<(String, String)>) -> Seq<(Seq<char>, Seq<char>)> {
    names.map_values(|p: (String, String)| (p.0@, p.1@))
}

/// The file that `target` (a file id, or part of a file name) picks out of
/// `files`, ignoring case.
pub fn pick_file<'a>(files: &'a [CanvasFile], target: &str) -> (r: Result<&'a CanvasFile, String>)
    ensures
        match r {
            Ok(f) => picked(files@, target@) matches Ok(i) && 0 <= i < files@.len() && *f
                == files@[i],
            Err(e) => picked(files@, target@) == Err::<int, Seq<char>>(e@),
        },
{
    let needle = to_lowercase(target);
    let mut names: Vec<(String, String)> = Vec::new();
    let mut k: usize = 0;
    while k < files.len()
        invariant
            0 <= k <= files@.len(),
            pair_texts(names@) == files@.take(k as int).map_values(|f: CanvasFile| lowered(f)),
        decreases files@.len() - k,
    {
        let f = &files[k];
        let name = to_lowercase(f.name());
        let display = to_lowercase(f.display_name.as_str());
        let ghost pair = (name@, display@);
        let ghost before = names@;
        names.push((name, display));
        assert(pair == lowered(*f));
        assert(pair_texts(names@) =~= pair_texts(before).push(pair));
        assert(files@.take(k + 1).map_values(|g: CanvasFile| lowered(g)) =~= files@.take(
            k as int,
        ).map_values(|g: CanvasFile| lowered(g)).push(lowered(*f)));
        k += 1;
    }
    assert(files@.take(files@.len() as int) == files@);
    pick_by_names(files, target, needle.as_str(), names.as_slice())
}

/// The file that `target` picks out of `files`, whose names lowercased are
/// `names`, with `needle` the lowercased target.
pub fn pick_by_names<'a>(files: &'a [CanvasFile], target: &str, needle: &str, names: &[(String, String)]) -> (r:
    Result<&'a CanvasFile, String>)
    requires
        names@.len() == files@.len(),
    ensures
        match r {
            Ok(f) => picked_by(files@, target@, needle@, pair_texts(names@)) matches Ok(i) && 0 <= i
                < files@.len() && *f == files@[i],
            Err(e) => picked_by(files@, target@, needle@, pair_texts(names@)) == Err::<int, Seq<char>>(
                e@,
            ),
        },
{
    if let Some(id) = crate::text::parse_decimal(target, u64::MAX) {
        let mut k: usize = 0;
        assert(files@.skip(0) == files@);
        while k < files.len()
            invariant
                0 <= k <= files@.len(),
                crate::text::parse_unsigned(target@, u64::MAX as nat) == Some(id as nat),
                first_with_id(files@, id as nat) == k + first_with_id(files@.skip(k as int), id as nat),
                forall|j: int| 0 <= j < k ==> files@[j].id != id,
            decreases files@.len() - k,
        {
            assert(files@.skip(k as int).drop_first() == files@.skip(k + 1));
            if files[k].id == id {
                assert(first_with_id(files@.skip(k as int), id as nat) == 0);
                return Ok(&files[k]);
            }
            k += 1;
        }
        let mut e = String::from_str("课程里没有 id 为 ");
        push_decimal(&mut e, id as u128);
        push_str(&mut e, " 的文件");
        return Err(e);
    }
    let ghost nv = pair_texts(names@);
    let w = chars_of(needle);
    let mut ix: Vec<usize> = Vec::new();
    let mut k: usize = 0;
    while k < files.len()
        invariant
            0 <= k <= files@.len(),
            names@.len() == files@.len(),
            nv == pair_texts(names@),
            w@ == needle@,
            ix@.len() == matching(nv.take(k as int), w@).len(),
            forall|m: int|
                #![trigger ix@[m]]
                0 <= m < ix@.len() ==> ix@[m] as int == matching(nv.take(k as int), w@)[m]
                    && ix@[m] < k,
        decreases files@.len() - k,
    {
        let hit = crate::text::contains(names[k].0.as_str(), needle) || crate::text::contains(
            names[k].1.as_str(),
            needle,
        );
        assert(nv.take(k + 1).drop_last() == nv.take(k as int));
        assert(nv.take(k + 1).last() == nv[k as int]);
        let ghost before = ix@;
        assert(hit == names_match(nv[k as int], w@));
        if hit {
            ix.push(k);
        }
        assert forall|m: int|
            #![trigger ix@[m]]
            0 <= m < ix@.len() implies ix@[m] as int == matching(nv.take(k + 1), w@)[m]
                && ix@[m] < k + 1 by {
            if m < before.len() {
                assert(ix@[m] == before[m]);
            }
        }
        k += 1;
    }
    assert(nv.take(files@.len() as int) == nv);
    if ix.len() == 0 {
        let mut e = String::from_str("没有匹配「");
        push_str(&mut e, target);
        push_str(&mut e, "」的文件，可先用 action=list 查看");
        return Err(e);
    }
    if ix.len() == 1 {
        return Ok(&files[ix[0]]);
    }
    let ghost all = matching(nv, w@);
    let mut e = String::from_str("匹配到 ");
    push_decimal(&mut e, ix.len() as u128);
    push_str(&mut e, " 个文件，请用更精确的名字或文件 id：\n");
    let ghost head = e@;
    let mut m: usize = 0;
    while m < ix.len()
        invariant
            0 <= m <= ix@.len(),
            ix@.len() == all.len(),
            forall|q: int|
                #![trigger ix@[q]]
                0 <= q < ix@.len() ==> ix@[q] as int == all[q] && ix@[q] < files@.len(),
            e@ == head + match_lines(files@, all.take(m as int)),
        decreases ix@.len() - m,
    {
        let f = &files[ix[m]];
        push_str(&mut e, "  [");
        push_decimal(&mut e, f.id as u128);
        push_str(&mut e, "] ");
        push_str(&mut e, f.display_name.as_str());
        push_str(&mut e, "\n");
        assert(all.take(m + 1).drop_last() == all.take(m as int));
        assert(all.take(m + 1).last() == all[m as int]);
        m += 1;
    }
    assert(all.take(ix@.len() as int) == all);
    Err(e)
}

/// How many characters of `s` come before its first white space.
pub open spec fn first_ws(s: Seq<char>) -> nat
    decreases s.len(),
{
    if s.len() == 0 {
        0
    } else if crate::text::is_ws(s[0]) {
        0
    } else {
        1 + first_ws(s.drop_first())
    }
}

/// The words of `s`: its maximal runs of characters other than white space,
/// as `str::split_whitespace` yields them.
pub open spec fn words(s: Seq<char>) -> Seq<Seq<char>>
    decreases s.len(),
{
    if s.len() == 0 {
        seq![]
    } else if crate::text::is_ws(s[0]) {
        words(s.drop_first())
    } else {
        proof {
            lemma_first_ws_bounds(s);
        }
        seq![s.take(first_ws(s) as int)] + words(s.skip(first_ws(s) as int))
    }
}

pub proof fn lemma_first_ws_bounds(s: Seq<char>)
    ensures
        first_ws(s) <= s.len(),
        s.len() > 0 && !crate::text::is_ws(s[0]) ==> first_ws(s) >= 1,
    decreases s.len(),
{
    if s.len() > 0 {
        lemma_first_ws_bounds(s.drop_first());
    }
}

proof fn lemma_first_ws(s: Seq<char>, k: int)
    requires
        0 <= k <= s.len(),
        forall|j: int| 0 <= j < k ==> !crate::text::is_ws(s[j]),
        k == s.len() || crate::text::is_ws(s[k]),
    ensures
        first_ws(s) == k,
    decreases k,
{
    if k > 0 {
        lemma_first_ws(s.drop_first(), k - 1);
    }
}

/// `text` on one line: its words joined by single spaces.
pub fn one_line(text: &str) -> (r: String)
    ensures
        r@ == join(words(text@), " "@),
{
    let v = chars_of(text);
    let n = v.len();
    let mut out = String::new();
    let ghost mut done: Seq<Seq<char>> = seq![];
    let mut any = false;
    let mut i: usize = 0;
    assert(v@.skip(0) == v@);
    while i < n
        invariant
            any == (done.len() > 0),
            0 <= i <= n,
            n == v@.len(),
            v@ == text@,
            words(text@) == done + words(v@.skip(i as int)),
            out@ == join(done, " "@),
        decreases n - i,
    {
        let ghost rest = v@.skip(i as int);
        if crate::text::is_whitespace(v[i]) {
            assert(rest.drop_first() == v@.skip(i + 1));
            i += 1;
        } else {
            let mut j: usize = i;
            while j < n && !crate::text::is_whitespace(v[j])
                invariant
                    i <= j <= n,
                    n == v@.len(),
                    forall|m: int| i <= m < j ==> !crate::text::is_ws(v@[m]),
                decreases n - j,
            {
                j += 1;
            }
            proof {
                lemma_first_ws(rest, j - i);
                assert(rest.take(j - i) == v@.subrange(i as int, j as int));
                assert(rest.skip(j - i) == v@.skip(j as int));
                let w = v@.subrange(i as int, j as int);
                assert(done.push(w).drop_last() == done);
                done = done.push(w);
                assert(words(text@) == done + words(v@.skip(j as int)));
            }
            if any {
                push_str(&mut out, " ");
            }
            push_chars(&mut out, v.as_slice(), i, j);
            any = true;
            i = j;
        }
    }
    assert(v@.skip(n as int).len() == 0);
    out
}

/// The decimal texts of `uids`.
pub open spec fn uid_texts(uids: Seq<u32>) -> Seq<Seq<char>> {
    uids.map_values(|u: u32| decimal(u as nat))
}

/// An IMAP UID set: the UIDs in decimal, separated by commas.
pub fn uid_set(uids: &[u32]) -> (r: String)
    ensures
        r@ == join(uid_texts(uids@), ","@),
{
    let ghost ts = uid_texts(uids@);
    let mut out = String::new();
    let mut k: usize = 0;
    while k < uids.len()
        invariant
            0 <= k <= uids@.len(),
            ts == uid_texts(uids@),
            out@ == join(ts.take(k as int), ","@),
        decreases uids@.len() - k,
    {
        if k > 0 {
            push_str(&mut out, ",");
        }
        push_decimal(&mut out, uids[k] as u128);
        assert(ts.take(k + 1).drop_last() == ts.take(k as int));
        assert(ts.take(k + 1).last() == decimal(uids@[k as int] as nat));
        k += 1;
    }
    assert(ts.take(uids@.len() as int) == ts);
    out
}

/// The order from the greatest UID to the least.
pub open spec fn newest_first() -> spec_fn(u32, u32) -> bool {
    |a: u32, b: u32| a >= b
}

/// Inserting `x` into a list sorted from the greatest down, after every
/// element at least `x` and before every element below it, keeps it sorted.
proof fn lemma_insert_keeps_newest_first(before: Seq<u32>, pos: int, x: u32)
    requires
        0 <= pos <= before.len(),
        vstd::relations::sorted_by(before, newest_first()),
        forall|i: int| 0 <= i < pos ==> before[i] >= x,
        pos < before.len() ==> before[pos] < x,
    ensures
        vstd::relations::sorted_by(before.insert(pos, x), newest_first()),
{
    let out = before.insert(pos, x);
    before.insert_ensures(pos, x);
    assert forall|i: int, j: int| 0 <= i < j < out.len() implies #[trigger] newest_first()(out[i], out[j]) by {
        if i < pos && j > pos {
            assert(out[i] == before[i]);
            assert(out[j] == before[j - 1]);
            assert(newest_first()(before[i], before[j - 1]));
        } else if i == pos {
            assert(out[j] == before[j - 1]);
            if j - 1 > pos {
                assert(newest_first()(before[pos], before[j - 1]));
            }
        } else if j == pos {
            assert(out[i] == before[i]);
        } else if j < pos {
            assert(newest_first()(before[i], before[j]));
        } else {
            assert(out[i] == before[i - 1]);
            assert(out[j] == before[j - 1]);
            assert(newest_first()(before[i - 1], before[j - 1]));
        }
    }
}

/// The `limit` greatest of `uids` (all of them if there are fewer), from
/// the greatest down.
pub fn newest_uids(uids: Vec<u32>, limit: usize) -> (r: Vec<u32>)
    ensures
        r@ == uids@.sort_by(newest_first()).take(
            if limit < uids@.len() {
                limit as int
            } else {
                uids@.len() as int
            },
        ),
{
    broadcast use vstd::seq_lib::group_to_multiset_ensures;

    let ghost input = uids@;
    let mut out: Vec<u32> = Vec::new();
    let mut k: usize = 0;
    while k < uids.len()
        invariant
            0 <= k <= uids@.len(),
            input == uids@,
            out@.to_multiset() == input.take(k as int).to_multiset(),
            vstd::relations::sorted_by(out@, newest_first()),
        decreases uids@.len() - k,
    {
        let x = uids[k];
        let mut pos: usize = 0;
        while pos < out.len() && out[pos] >= x
            invariant
                0 <= pos <= out@.len(),
                forall|i: int| 0 <= i < pos ==> out@[i] >= x,
            decreases out@.len() - pos,
        {
            pos += 1;
        }
        let ghost before = out@;
        proof {
            lemma_insert_to_multiset(before, pos as int, x);
            input.take(k as int).to_multiset_ensures();
            assert(input.take(k + 1) == input.take(k as int).push(x));
        }
        assert(forall|i: int| 0 <= i < pos ==> before[i] >= x);
        assert(pos < before.len() ==> before[pos as int] < x);
        out.insert(pos, x);
        assert(out@ == before.insert(pos as int, x));
        proof {
            lemma_insert_keeps_newest_first(before, pos as int, x);
        }
        k += 1;
    }
    proof {
        assert(input.take(input.len() as int) == input);
        assert(vstd::relations::total_ordering(newest_first()));
        input.lemma_sort_by_ensures(newest_first());
        vstd::seq_lib::lemma_sorted_unique(out@, input.sort_by(newest_first()), newest_first());
        out@.to_multiset_ensures();
        input.to_multiset_ensures();
        assert(out@.len() == input.len());
    }
    let keep: usize = if limit < out.len() {
        limit
    } else {
        out.len()
    };
    let ghost sorted = out@;
    out.truncate(keep);
    assert(out@ == sorted.take(keep as int));
    out
}

/// A mail address as shown: `name <address>` when both are given and
/// differ, else whichever is given, else 「(未知发件人)」.
pub fn format_addr(name: Option<&str>, address: Option<&str>) -> (r: String)
    ensures
        r@ == match (name, address) {
            (Some(n), Some(a)) => if n@ != a@ {
                n@ + " <"@ + a@ + ">"@
            } else {
                a@
            },
            (None, Some(a)) => a@,
            (Some(n), None) => n@,
            (None, None) => "(未知发件人)"@,
        },
{
    match (name, address) {
        (Some(n), Some(a)) => {
            if String::from_str(n) != String::from_str(a) {
                let mut t = String::from_str(n);
                push_str(&mut t, " <");
                push_str(&mut t, a);
                push_str(&mut t, ">");
                t
            } else {
                String::from_str(a)
            }
        },
        (None, Some(a)) => String::from_str(a),
        (Some(n), None) => String::from_str(n),
        (None, None) => String::from_str("(未知发件人)"),
    }
}

/// A numeric argument of a tool call as the JSON gives it: a number (which
/// may not be a whole non-negative one), a text, or something else.
pub enum NumberArg {
    /// A JSON number, and its value if it is a `u64`.
    Number(Option<u64>),
    /// A JSON string.
    Text(String),
    /// Anything else, or nothing.
    Missing,
}

/// The page number a `start_page` or `end_page` argument gives: a positive
/// whole number, or a text spelling one.
pub open spec fn page_number_of(arg: NumberArg) -> Option<usize> {
    let n: Option<usize> = match arg {
        NumberArg::Number(Some(v)) => Some(v as usize),
        NumberArg::Number(None) => None,
        NumberArg::Text(t) => match crate::text::parse_unsigned(crate::text::trim(t@), usize::MAX as nat) {
            Some(v) => Some(v as usize),
            None => None,
        },
        NumberArg::Missing => None,
    };
    match n {
        Some(v) => if v > 0 {
            Some(v)
        } else {
            None
        },
        None => None,
    }
}

/// The page number that a page argument gives, if any.
pub fn page_number(arg: NumberArg) -> (r: Option<usize>)
    ensures
        r == page_number_of(arg),
{
    let n: Option<usize> = match arg {
        NumberArg::Number(Some(v)) => Some(#[verifier::truncate] (v as usize)),
        NumberArg::Number(None) => None,
        NumberArg::Text(t) => {
            let tt = crate::text::trimmed(t.as_str());
            match crate::text::parse_decimal(tt.as_str(), usize::MAX as u64) {
                Some(v) => Some(v as usize),
                None => None,
            }
        },
        NumberArg::Missing => None,
    };
    match n {
        Some(v) => if v > 0 {
            Some(v)
        } else {
            None
        },
        None => None,
    }
}

/// The UID a `uid` argument gives: a number (cut to 32 bits), or a text
/// spelling a 32-bit number.
pub open spec fn uid_of(arg: NumberArg) -> Option<u32> {
    match arg {
        NumberArg::Number(Some(v)) => Some(v as u32),
        NumberArg::Number(None) => None,
        NumberArg::Text(t) => match crate::text::parse_unsigned(crate::text::trim(t@), u32::MAX as nat) {
            Some(v) => Some(v as u32),
            None => None,
        },
        NumberArg::Missing => None,
    }
}

/// The UID that a `uid` argument gives, if any.
pub fn uid_number(arg: NumberArg) -> (r: Option<u32>)
    ensures
        r == uid_of(arg),
{
    match arg {
        NumberArg::Number(Some(v)) => Some(#[verifier::truncate] (v as u32)),
        NumberArg::Number(None) => None,
        NumberArg::Text(t) => {
            let tt = crate::text::trimmed(t.as_str());
            match crate::text::parse_decimal(tt.as_str(), u32::MAX as u64) {
                Some(v) => Some(v as u32),
                None => None,
            }
        },
        NumberArg::Missing => None,
    }
}

/// The most mails listed at once.
pub const MAIL_MAX_LIMIT: usize = 50;

/// A request to the mail tool, its arguments read.
pub struct MailRequest {
    pub action: String,
    pub folder: String,
    pub limit: usize,
    pub uid: Option<u32>,
    pub unread_only: bool,
}

/// What the mail tool is asked to do.
pub enum MailPlan {
    /// List the newest `limit` mails of `folder` (only unread ones if asked).
    List { folder: String, limit: usize, unread_only: bool },
    /// Show the mail `uid` of `folder`.
    Read { folder: String, uid: u32 },
    /// List the folders.
    Folders,
}

impl MailRequest {
    /// The request that the arguments make: the action trimmed and lowercased
    /// (`list` if missing), the folder trimmed (`INBOX` if missing or blank),
    /// the limit between 1 and [`MAIL_MAX_LIMIT`] (10 if missing), and only
    /// unread mails if `unread_only` is true.
    pub fn new(
        action: Option<&str>,
        folder: Option<&str>,
        limit: Option<u64>,
        uid: NumberArg,
        unread_only: Option<bool>,
    ) -> (r: MailRequest)
        ensures
            r.action@ == lowercase(crate::text::trim(
                match action {
                    Some(a) => a@,
                    None => "list"@,
                },
            )),
            r.folder@ == match folder {
                Some(f) => if crate::text::trim(f@).len() > 0 {
                    crate::text::trim(f@)
                } else {
                    "INBOX"@
                },
                None => "INBOX"@,
            },
            r.limit == match limit {
                Some(v) => {
                    let n = v as usize;
                    if n < 1 {
                        1
                    } else if n > MAIL_MAX_LIMIT {
                        MAIL_MAX_LIMIT
                    } else {
                        n
                    }
                },
                None => 10,
            },
            r.uid == uid_of(uid),
            r.unread_only == match unread_only {
                Some(b) => b,
                None => false,
            },
    {
        let a = match action {
            Some(a) => crate::text::trimmed(a),
            None => crate::text::trimmed("list"),
        };
        let action = to_lowercase(a.as_str());
        let folder = match folder {
            Some(f) => {
                let t = crate::text::trimmed(f);
                if t.as_str().is_empty() {
                    String::from_str("INBOX")
                } else {
                    t
                }
            },
            None => String::from_str("INBOX"),
        };
        let limit: usize = match limit {
            Some(v) => {
                let n = #[verifier::truncate] (v as usize);
                if n < 1 {
                    1
                } else if n > MAIL_MAX_LIMIT {
                    MAIL_MAX_LIMIT
                } else {
                    n
                }
            },
            None => 10,
        };
        let unread_only = match unread_only {
            Some(b) => b,
            None => false,
        };
        MailRequest { action, folder, limit, uid: uid_number(uid), unread_only }
    }

    /// What the request asks for: `list`, `read` (which needs a UID) or
    /// `folders`; any other action is refused.
    pub fn plan(&self) -> (r: Result<MailPlan, String>)
        ensures
            self.action@ == "list"@ ==> (r matches Ok(MailPlan::List { folder, limit, unread_only })
                && folder@ == self.folder@ && limit == self.limit && unread_only
                == self.unread_only),
            self.action@ == "read"@ ==> match self.uid {
                Some(u) => r matches Ok(MailPlan::Read { folder, uid }) && folder@ == self.folder@
                    && uid == u,
                None => r matches Err(e) && e@ == "action=read 时必须给出 uid，可先用 action=list 查看"@,
            },
            self.action@ == "folders"@ ==> r matches Ok(MailPlan::Folders),
            (self.action@ != "list"@ && self.action@ != "read"@ && self.action@ != "folders"@) ==> (
            r matches Err(e) && e@ == "未知的 action「"@ + self.action@ + "」，只支持 list / read / folders"@),
    {
        proof {
            reveal_strlit("list");
            reveal_strlit("read");
            reveal_strlit("folders");
            assert("list"@[0] != "read"@[0]);
            assert("list"@.len() != "folders"@.len());
            assert("read"@.len() != "folders"@.len());
        }
        if self.action == String::from_str("list") {
            Ok(MailPlan::List {
                folder: self.folder.clone(),
                limit: self.limit,
                unread_only: self.unread_only,
            })
        } else if self.action == String::from_str("read") {
            match self.uid {
                Some(uid) => Ok(MailPlan::Read { folder: self.folder.clone(), uid }),
                None => Err(String::from_str("action=read 时必须给出 uid，可先用 action=list 查看")),
            }
        } else if self.action == String::from_str("folders") {
            Ok(MailPlan::Folders)
        } else {
            let mut e = String::from_str("未知的 action「");
            push_str(&mut e, self.action.as_str());
            push_str(&mut e, "」，只支持 list / read / folders");
            Err(e)
        }
    }
}

/// How many pages a PDF may have and still be returned whole.
pub const PDF_SHORT_PAGES: usize = 12;

/// How many characters of each page the outline of a long PDF shows.
pub const PDF_PAGE_HEAD_CHARS: usize = 60;

/// Whether no page holds any text but white space.
pub open spec fn all_blank(pages: Seq<String>) -> bool {
    forall|i: int| 0 <= i < pages.len() ==> crate::text::trim(#[trigger] pages[i]@).len() == 0
}

/// Whether no page holds any text but white space (a scanned PDF).
pub fn pages_blank(pages: &[String]) -> (b: bool)
    ensures
        b == all_blank(pages@),
{
    let mut k: usize = 0;
    while k < pages.len()
        invariant
            0 <= k <= pages@.len(),
            forall|i: int| 0 <= i < k ==> crate::text::trim(#[trigger] pages@[i]@).len() == 0,
        decreases pages@.len() - k,
    {
        if !crate::text::trimmed(pages[k].as_str()).as_str().is_empty() {
            return false;
        }
        k += 1;
    }
    true
}

/// The head of a page in the outline: its words on one line, cut to
/// [`PDF_PAGE_HEAD_CHARS`] characters.
pub open spec fn page_head(page: Seq<char>) -> Seq<char> {
    let line = join(words(page), " "@);
    if line.len() <= PDF_PAGE_HEAD_CHARS {
        line
    } else {
        line.take(PDF_PAGE_HEAD_CHARS as int)
    }
}

/// What the PDF tool answers for a PDF without any text.
pub const SCANNED_PDF: &'static str = "没有任何文字，可能是扫描版 PDF，需要 OCR";

/// Whether the extracted `pages` can be read: a PDF whose pages hold
/// nothing but white space is a scan, which needs OCR.
pub fn check_pdf_text(pages: &[String]) -> (r: Result<(), String>)
    ensures
        r is Ok <==> !all_blank(pages@),
        r matches Err(e) ==> e@ == SCANNED_PDF@,
{
    if pages_blank(pages) {
        Err(String::from_str(SCANNED_PDF))
    } else {
        Ok(())
    }
}

/// The outline lines of the first `k` pages, skipping pages without text.
pub open spec fn outline(pages: Seq<String>, k: int) -> Seq<char>
    decreases k,
{
    if k <= 0 {
        seq![]
    } else {
        let head = page_head(pages[k - 1]@);
        outline(pages, k - 1) + if head.len() > 0 {
            "第 "@ + decimal(k as nat) + " 页："@ + head + "\n"@
        } else {
            seq![]
        }
    }
}

/// The text of the pages `lo..hi` (numbered from 1), each trimmed under a
/// header line, skipping pages without text.
pub open spec fn page_texts(pages: Seq<String>, lo: int, hi: int) -> Seq<char>
    decreases hi - lo + 1,
{
    if hi < lo {
        seq![]
    } else {
        let page = crate::text::trim(pages[hi - 1]@);
        page_texts(pages, lo, hi - 1) + if page.len() > 0 {
            "\n--- 第 "@ + decimal(hi as nat) + " 页 ---\n"@ + page + "\n"@
        } else {
            seq![]
        }
    }
}

/// What the PDF tool gives for the PDF at `path` with text `pages`, asked
/// for pages `start..=end`: for a long PDF asked for no range, an outline of
/// each page's start; else the text of the range (by default all pages), or
/// why the range is not valid.
pub open spec fn pdf_report_of(path: Seq<char>, pages: Seq<String>, start: Option<usize>, end: Option<usize>) -> Result<
    Seq<char>,
    Seq<char>,
> {
    let total = pages.len();
    if start is None && end is None && total > PDF_SHORT_PAGES {
        Ok(
            clipped(
                "《"@ + path + "》共 "@ + decimal(total) + " 页，内容较长。以下是各页开头，可当作目录：\n"@
                    + outline(pages, total as int)
                    + "\n请确定需要的页码，再用 start_page / end_page 调用本工具读取原文。"@,
            ),
        )
    } else {
        let s: nat = match start {
            Some(v) => v as nat,
            None => 1,
        };
        let e: nat = match end {
            Some(v) => v as nat,
            None => total,
        };
        if s > total || e > total || e < s {
            Err("页范围无效：该 PDF 共 "@ + decimal(total) + " 页，请求的是 "@ + decimal(s) + "–"@ + decimal(e))
        } else {
            Ok(
                clipped(
                    "《"@ + path + "》第 "@ + decimal(s) + "–"@ + decimal(e) + " 页（全文共 "@
                        + decimal(total) + " 页）：\n"@ + page_texts(pages, s as int, e as int),
                ),
            )
        }
    }
}

/// Leaving out the end page reads to the last page: whenever a range is
/// read (a start page is given, or the PDF is short), asking without an end
/// page gives what asking up to the last page gives, whatever the start.
pub proof fn lemma_pdf_end_defaults_to_last(path: Seq<char>, pages: Seq<String>, start: Option<usize>)
    requires
        pages.len() <= usize::MAX,
        start is Some || pages.len() <= PDF_SHORT_PAGES,
    ensures
        pdf_report_of(path, pages, start, None) == pdf_report_of(path, pages, start, Some(pages.len() as usize)),
{
}

/// A range of pages is read from its start page to its end page, both
/// included and in order: one part per page, the page's number and its
/// trimmed text, nothing for a page without text.
pub proof fn lemma_page_texts_each_page(pages: Seq<String>, lo: int, hi: int)
    requires
        lo <= hi + 1,
    ensures
        page_texts(pages, lo, hi) == Seq::new(
            (hi - lo + 1) as nat,
            |j: int|
                if crate::text::trim(pages[lo + j - 1]@).len() > 0 {
                    "\n--- 第 "@ + decimal((lo + j) as nat) + " 页 ---\n"@ + crate::text::trim(pages[lo + j - 1]@)
                        + "\n"@
                } else {
                    Seq::<char>::empty()
                },
        ).flatten(),
    decreases hi - lo + 1,
{
    let f = |j: int|
        if crate::text::trim(pages[lo + j - 1]@).len() > 0 {
            "\n--- 第 "@ + decimal((lo + j) as nat) + " 页 ---\n"@ + crate::text::trim(pages[lo + j - 1]@)
                + "\n"@
        } else {
            Seq::<char>::empty()
        };
    if hi >= lo {
        lemma_page_texts_each_page(pages, lo, hi - 1);
        let shorter = Seq::new((hi - lo) as nat, f);
        assert(Seq::new((hi - lo + 1) as nat, f) =~= shorter.push(f(hi - lo)));
        shorter.lemma_flatten_push(f(hi - lo));
    } else {
        assert(Seq::new(0, f) =~= Seq::<Seq<char>>::empty());
    }
}

/// What the PDF tool gives for the PDF at `path` with text `pages`.
pub fn pdf_report(path: &str, pages: &[String], start: Option<usize>, end: Option<usize>) -> (r: Result<
    String,
    String,
>)
    requires
        start != Some(0usize),
    ensures
        match r {
            Ok(t) => pdf_report_of(path@, pages@, start, end) == Ok::<Seq<char>, Seq<char>>(t@),
            Err(e) => pdf_report_of(path@, pages@, start, end) == Err::<Seq<char>, Seq<char>>(e@),
        },
        end is None && (start is Some || pages@.len() <= PDF_SHORT_PAGES) ==> pdf_report_of(
            path@,
            pages@,
            start,
            end,
        ) == pdf_report_of(path@, pages@, start, Some(pages@.len() as usize)),
{
    let total = pages.len();
    proof {
        if end is None && (start is Some || pages@.len() <= PDF_SHORT_PAGES) {
            lemma_pdf_end_defaults_to_last(path@, pages@, start);
        }
    }
    if start.is_none() && end.is_none() && total > PDF_SHORT_PAGES {
        let mut text = String::from_str("《");
        push_str(&mut text, path);
        push_str(&mut text, "》共 ");
        push_decimal(&mut text, total as u128);
        push_str(&mut text, " 页，内容较长。以下是各页开头，可当作目录：\n");
        let ghost head = text@;
        let mut k: usize = 0;
        while k < total
            invariant
                0 <= k <= total,
                total == pages@.len(),
                text@ == head + outline(pages@, k as int),
            decreases total - k,
        {
            let line = one_line(pages[k].as_str());
            let v = chars_of(line.as_str());
            let n: usize = if v.len() <= PDF_PAGE_HEAD_CHARS {
                v.len()
            } else {
                PDF_PAGE_HEAD_CHARS
            };
            assert(v@.subrange(0, v@.len() as int) == v@);
            assert(v@.subrange(0, n as int) == page_head(pages@[k as int]@));
            if n > 0 {
                push_str(&mut text, "第 ");
                push_decimal(&mut text, k as u128 + 1);
                push_str(&mut text, " 页：");
                push_chars(&mut text, v.as_slice(), 0, n);
                push_str(&mut text, "\n");
            }
            k += 1;
        }
        push_str(&mut text, "\n请确定需要的页码，再用 start_page / end_page 调用本工具读取原文。");
        return Ok(clip(text.as_str()));
    }
    let s: usize = match start {
        Some(v) => v,
        None => 1,
    };
    let e: usize = match end {
        Some(v) => v,
        None => total,
    };
    if s > total || e > total || e < s {
        let mut t = String::from_str("页范围无效：该 PDF 共 ");
        push_decimal(&mut t, total as u128);
        push_str(&mut t, " 页，请求的是 ");
        push_decimal(&mut t, s as u128);
        push_str(&mut t, "–");
        push_decimal(&mut t, e as u128);
        return Err(t);
    }
    let mut text = String::from_str("《");
    push_str(&mut text, path);
    push_str(&mut text, "》第 ");
    push_decimal(&mut text, s as u128);
    push_str(&mut text, "–");
    push_decimal(&mut text, e as u128);
    push_str(&mut text, " 页（全文共 ");
    push_decimal(&mut text, total as u128);
    push_str(&mut text, " 页）：\n");
    let ghost head = text@;
    let mut k: usize = s - 1;
    assert(page_texts(pages@, s as int, s - 1) == Seq::<char>::empty());
    while k < e
        invariant
            1 <= s,
            s - 1 <= k <= e,
            e <= total,
            total == pages@.len(),
            text@ == head + page_texts(pages@, s as int, k as int),
        decreases e - k,
    {
        let page = crate::text::trimmed(pages[k].as_str());
        if !page.as_str().is_empty() {
            push_str(&mut text, "\n--- 第 ");
            push_decimal(&mut text, k as u128 + 1);
            push_str(&mut text, " 页 ---\n");
            push_str(&mut text, page.as_str());
            push_str(&mut text, "\n");
        }
        k += 1;
    }
    Ok(clip(text.as_str()))
}

/// A course as the course list shows it: its id, name, and the name of its
/// term if it has one.
pub struct Course {
    pub id: u64,
    pub name: String,
    pub term: Option<String>,
}

/// The lines of the first `k` courses.
pub open spec fn course_lines(courses: Seq<Course>, k: int) -> Seq<char>
    decreases k,
{
    if k <= 0 {
        seq![]
    } else {
        course_lines(courses, k - 1) + course_line(courses[k - 1])
    }
}

/// What the course tool gives for the active `courses`.
pub open spec fn courses_report_of(courses: Seq<Course>) -> Seq<char> {
    if courses.len() == 0 {
        "没有进行中的课程。"@
    } else {
        clipped("共 "@ + decimal(courses.len()) + " 门课程：\n"@ + course_lines(courses, courses.len() as int))
    }
}

/// The line of the course list for `c`, and its term's line if it has one.
pub open spec fn course_line(c: Course) -> Seq<char> {
    "  ["@ + crate::text::pad_left(decimal(c.id as nat), 7) + "]  "@ + c.name@ + "\n"@ + match c.term {
        Some(t) => "            "@ + t@ + "\n"@,
        None => seq![],
    }
}

fn push_course_line(out: &mut String, c: &Course)
    ensures
        final(out)@ == old(out)@ + course_line(*c),
{
    push_str(out, "  [");
    let id = crate::text::decimal_string(c.id as u128);
    crate::text::push_padded(out, id.as_str(), 7);
    push_str(out, "]  ");
    push_str(out, c.name.as_str());
    push_str(out, "\n");
    match &c.term {
        Some(t) => {
            push_str(out, "            ");
            push_str(out, t.as_str());
            push_str(out, "\n");
        },
        None => {
            assert(out@ + Seq::<char>::empty() == out@);
        },
    }
}

/// What the course tool gives for the active `courses`: each id
/// right-aligned, its name, and its term on the next line.
pub fn courses_report(courses: &[Course]) -> (r: String)
    ensures
        r@ == courses_report_of(courses@),
{
    if courses.len() == 0 {
        return String::from_str("没有进行中的课程。");
    }
    let mut text = String::from_str("共 ");
    push_decimal(&mut text, courses.len() as u128);
    push_str(&mut text, " 门课程：\n");
    let ghost head = text@;
    let mut k: usize = 0;
    while k < courses.len()
        invariant
            0 <= k <= courses@.len(),
            text@ == head + course_lines(courses@, k as int),
        decreases courses@.len() - k,
    {
        push_course_line(&mut text, &courses[k]);
        k += 1;
    }
    clip(text.as_str())
}

/// What the shell tool gives for a command that wrote `stdout` and `stderr`:
/// both, then the exit code (-1 if killed by a signal) if it failed; clipped.
pub fn command_output(stdout: &str, stderr: &str, success: bool, code: Option<i32>) -> (r: String)
    ensures
        r@ == clipped(stdout@ + stderr@ + if success {
            Seq::<char>::empty()
        } else {
            "\n[退出码: "@ + crate::text::signed_decimal(
                match code {
                    Some(c) => c as int,
                    None => -1,
                },
            ) + "]"@
        }),
{
    let mut text = String::from_str(stdout);
    push_str(&mut text, stderr);
    let ghost both = text@;
    if !success {
        push_str(&mut text, "\n[退出码: ");
        let c: i32 = match code {
            Some(c) => c,
            None => -1,
        };
        crate::text::push_signed(&mut text, c as i64);
        push_str(&mut text, "]");
        let ghost code_int: int = match code {
            Some(c) => c as int,
            None => -1,
        };
        assert(c as i64 as int == code_int);
        assert(text@ == both + ("\n[退出码: "@ + crate::text::signed_decimal(code_int) + "]"@));
    } else {
        assert(text@ == both + Seq::<char>::empty());
    }
    clip(text.as_str())
}

/// What the write tool answers once `content` is written to `path`.
pub fn write_report(path: &str, content: &str) -> (r: String)
    ensures
        r@ == "已写入 "@ + path@ + "，"@ + decimal(bytes_len(content@)) + " 字节"@,
{
    let mut t = String::from_str("已写入 ");
    push_str(&mut t, path);
    push_str(&mut t, "，");
    let v = chars_of(content);
    let mut n: u128 = 0;
    let mut k: usize = 0;
    assert(v@.skip(0) == v@);
    while k < v.len()
        invariant
            0 <= k <= v@.len(),
            v@ == content@,
            n + bytes_len(v@.skip(k as int)) == bytes_len(v@),
            n <= 4 * k,
        decreases v@.len() - k,
    {
        assert(v@.skip(k as int).drop_first() == v@.skip(k + 1));
        n = n + crate::text::char_utf8_width(v[k]) as u128;
        k += 1;
    }
    push_decimal(&mut t, n);
    push_str(&mut t, " 字节");
    t
}

/// The forum the `watch_shuiyuan` tool opens.
pub const SHUIYUAN_URL: &'static str = "https://shuiyuan.sjtu.edu.cn";

/// The academic affairs site the `watch_eduinfo` tool opens.
pub const EDUINFO_URL: &'static str = "https://i.sjtu.edu.cn/xtgl/login_slogin.html";

/// What a tool answers once it had the browser open a site it knows.
pub const BROWSER_OPENED: &'static str = "open browser sucessful";

/// What `open_usual_website` answers once the browser opened the site.
pub const WEBSITE_OPENED: &'static str = "open website sucessful";

/// What `open_usual_website` answers when the model could not tell the site.
pub const WEBSITE_UNKNOWN: &'static str = "不可知用户指定的网站具体url，请求提供";

/// Whether `t` is one of the tools that open a web page.
pub open spec fn opens_browser(t: Tool) -> bool {
    t == Tool::WatchShuiyuan || t == Tool::WatchEduinfo || t == Tool::OpenUsualWebsite
}

/// The page that a browser tool opens and what it answers then, or why it
/// opens none: the forum and the academic site are fixed; the usual-website
/// tool opens the `url` argument, unless the model wrote `none` there.
pub fn browser_plan(t: Tool, url: Option<&str>) -> (r: Result<(String, String), String>)
    requires
        opens_browser(t),
        t == Tool::OpenUsualWebsite ==> url is Some,
    ensures
        t == Tool::WatchShuiyuan ==> (r matches Ok((page, answer)) && page@ == SHUIYUAN_URL@ && answer@
            == BROWSER_OPENED@),
        t == Tool::WatchEduinfo ==> (r matches Ok((page, answer)) && page@ == EDUINFO_URL@ && answer@
            == BROWSER_OPENED@),
        t == Tool::OpenUsualWebsite ==> match url {
            Some(u) => if u@ == "none"@ {
                r matches Err(e) && e@ == WEBSITE_UNKNOWN@
            } else {
                r matches Ok((page, answer)) && page@ == u@ && answer@ == WEBSITE_OPENED@
            },
            None => false,
        },
{
    match t {
        Tool::WatchShuiyuan => Ok((String::from_str(SHUIYUAN_URL), String::from_str(BROWSER_OPENED))),
        Tool::WatchEduinfo => Ok((String::from_str(EDUINFO_URL), String::from_str(BROWSER_OPENED))),
        _ => {
            let u = match url {
                Some(u) => u,
                None => "",
            };
            if crate::text::str_eq(u, "none") {
                Err(String::from_str(WEBSITE_UNKNOWN))
            } else {
                Ok((String::from_str(u), String::from_str(WEBSITE_OPENED)))
            }
        },
    }
}

} // verus!
