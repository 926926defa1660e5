//! Skills: Markdown files whose front matter names a task procedure. The
//! library parses a skill file, orders a set of skills by name and renders
//! the section of the system prompt that lists them.
use vstd::prelude::*;
use crate::text::{
    CharClass, chars_le, chars_of, find_char, first_of, lemma_insert_filter, lemma_insert_to_multiset, lemma_text_le_reflexive,
    lemma_text_le_total, lemma_text_le_transitive, line_spans, lines, push_str, range_eq, strip,
    strip_bounds, strip_start, strip_start_at, string_from, text_le, trim, trim_bounds,
};

verus! {

/// A skill as the prompt lists it: its name, a one-line description, and the
/// path of its `SKILL.md`.
pub struct Skill {
    pub name: String,
    pub description: String,
    pub path: String,
}

/// The texts a [`Skill`] holds.
pub struct SkillView {
    pub name: Seq<char>,
    pub description: Seq<char>,
    pub path: Seq<char>,
}

impl View for Skill {
    type V = SkillView;

    open spec fn view(&self) -> SkillView {
        SkillView { name: self.name@, description: self.description@, path: self.path@ }
    }
}

/// A skill file as found on disk: the name of its directory (the name to use
/// when the file gives none), its text, and its path.
pub struct SkillSource {
    pub fallback: String,
    pub text: String,
    pub path: String,
}

/// The skill that a source describes.
pub open spec fn source_skill(src: SkillSource) -> SkillView {
    SkillView {
        name: skill_name(src.text@, src.fallback@),
        description: skill_description(src.text@),
        path: src.path@,
    }
}

/// The heading of the skills section of the system prompt.
pub const SKILLS_HEADER: &'static str = "
                *可用技能*
                下面是本机技能目录里的技能说明。每个技能是一个 Markdown 文件，写明了某类任务的完整流程、参数和注意事项。
                当用户的请求与某个技能的描述相符时，必须先用 read 工具读取该技能文件的全文，再严格按其中的步骤执行，不要凭记忆猜测流程。
                技能列表：
";

/// What a skill entry starts with.
pub const ENTRY_LEAD: &'static str = "                - ";

/// What separates a skill's name from its description.
pub const ENTRY_NAME_END: &'static str = "：";

/// What stands for a missing description.
pub const NO_DESCRIPTION: &'static str = "（无描述）";

/// What comes between a skill's description and its path.
pub const ENTRY_PATH_LEAD: &'static str = "\n                  文件：";

/// What ends an entry.
pub const ENTRY_END: &'static str = "\n";

/// The prompt entry of one skill.
pub open spec fn skill_entry(s: SkillView) -> Seq<char> {
    ENTRY_LEAD@ + s.name + ENTRY_NAME_END@ + (if s.description.len() == 0 {
        NO_DESCRIPTION@
    } else {
        s.description
    }) + ENTRY_PATH_LEAD@ + s.path + ENTRY_END@
}

/// The entries of `ss`, in order.
pub open spec fn skill_entries(ss: Seq<SkillView>) -> Seq<char>
    decreases ss.len(),
{
    if ss.len() == 0 {
        seq![]
    } else {
        skill_entries(ss.drop_last()) + skill_entry(ss.last())
    }
}

/// The skills section of the prompt: empty without skills, else the header
/// followed by one entry per skill.
pub open spec fn skills_section(ss: Seq<SkillView>) -> Seq<char> {
    if ss.len() == 0 {
        seq![]
    } else {
        SKILLS_HEADER@ + skill_entries(ss)
    }
}

/// The views of a slice of skills.
pub open spec fn views(skills: Seq<Skill>) -> Seq<SkillView> {
    skills.map_values(|s: Skill| s@)
}

/// Whether the skills are in order of their names.
pub open spec fn sorted_by_name(ss: Seq<SkillView>) -> bool {
    forall|i: int, j: int| 0 <= i < j < ss.len() ==> text_le(ss[i].name, ss[j].name)
}

/// Whether a line is a front-matter fence: `---` once trimmed.
pub open spec fn is_fence(line: Seq<char>) -> bool {
    trim(line) == "---"@
}

/// The index of the first fence among `ls[k..]`, or `ls.len()` if there is none.
pub open spec fn fence_from(ls: Seq<Seq<char>>, k: int) -> int
    decreases ls.len() - k,
{
    if k >= ls.len() {
        ls.len() as int
    } else if is_fence(ls[k]) {
        k
    } else {
        fence_from(ls, k + 1)
    }
}

/// Whether the file opens with a front-matter fence.
pub open spec fn has_front_matter(ls: Seq<Seq<char>>) -> bool {
    ls.len() > 0 && is_fence(ls[0])
}

/// The end (exclusive) of the front-matter field lines, which start at line 1:
/// the closing fence, or the end of the file if it is never closed.
pub open spec fn fields_end(ls: Seq<Seq<char>>) -> int {
    fence_from(ls, 1)
}

/// The first line of the body: after the closing fence, at the end of the
/// file if the front matter is not closed, and at line 0 without front matter.
pub open spec fn body_start(ls: Seq<Seq<char>>) -> int {
    if !has_front_matter(ls) {
        0
    } else if fields_end(ls) < ls.len() {
        fields_end(ls) + 1
    } else {
        ls.len() as int
    }
}

/// Whether a field line has a `:` at all.
pub open spec fn has_colon(line: Seq<char>) -> bool {
    first_of(line, ':') < line.len()
}

/// The key of a field line: the trimmed text before its first `:`.
pub open spec fn field_key(line: Seq<char>) -> Seq<char> {
    trim(line.take(first_of(line, ':') as int))
}

/// The value of a field line: the text after its first `:`, trimmed and
/// with quote characters removed from both ends.
pub open spec fn field_value(line: Seq<char>) -> Seq<char> {
    strip(CharClass::Quote, trim(line.skip(first_of(line, ':') + 1int)))
}

/// The value of the last field line among `ls[1..hi]` whose key is `key` (and,
/// when `nonempty`, whose value is not empty).
pub open spec fn last_field(ls: Seq<Seq<char>>, hi: int, key: Seq<char>, nonempty: bool) -> Option<
    Seq<char>,
>
    decreases hi,
{
    if hi <= 1 {
        None
    } else {
        let line = ls[hi - 1];
        if has_colon(line) && field_key(line) == key && (!nonempty || field_value(line).len() > 0) {
            Some(field_value(line))
        } else {
            last_field(ls, hi - 1, key, nonempty)
        }
    }
}

/// A body line as a heading: trimmed, leading `#`s dropped, trimmed again.
pub open spec fn heading(line: Seq<char>) -> Seq<char> {
    trim(strip_start(CharClass::Hash, trim(line)))
}

/// The first non-empty [`heading`] among `ls[k..]`, or the empty text.
pub open spec fn first_heading(ls: Seq<Seq<char>>, k: int) -> Seq<char>
    decreases ls.len() - k,
{
    if k >= ls.len() {
        seq![]
    } else if heading(ls[k]).len() > 0 {
        heading(ls[k])
    } else {
        first_heading(ls, k + 1)
    }
}

/// The name a skill file gives itself: the last non-empty `name` field of its
/// front matter, else `fallback`.
pub open spec fn skill_name(text: Seq<char>, fallback: Seq<char>) -> Seq<char> {
    let ls = lines(text);
    if has_front_matter(ls) {
        match last_field(ls, fields_end(ls), "name"@, true) {
            Some(v) => v,
            None => fallback,
        }
    } else {
        fallback
    }
}

/// The description a skill file gives: the last `description` field of its
/// front matter if that is not empty, else the first non-empty heading-stripped
/// line of the body, else the empty text.
pub open spec fn skill_description(text: Seq<char>) -> Seq<char> {
    let ls = lines(text);
    let field = if has_front_matter(ls) {
        match last_field(ls, fields_end(ls), "description"@, false) {
            Some(v) => v,
            None => seq![],
        }
    } else {
        seq![]
    };
    if field.len() > 0 {
        field
    } else {
        first_heading(ls, body_start(ls))
    }
}

/// The text of the line at `span` in `v`.
pub open spec fn span_text(v: Seq<char>, span: (usize, usize)) -> Seq<char> {
    v.subrange(span.0 as int, span.1 as int)
}

/// The text a span option stands for.
pub open spec fn span_option(v: Seq<char>, span: Option<(usize, usize)>) -> Option<Seq<char>> {
    match span {
        Some(s) => Some(span_text(v, s)),
        None => None,
    }
}

fn is_fence_line(v: &[char], span: (usize, usize)) -> (b: bool)
    requires
        span.0 <= span.1 <= v@.len(),
    ensures
        b == is_fence(span_text(v@, span)),
{
    let (a, b) = trim_bounds(v, span.0, span.1);
    range_eq(v, a, b, "---")
}

/// The key and value spans of the field line at `span`, if it has a `:`.
fn field_spans(v: &[char], span: (usize, usize)) -> (r: Option<((usize, usize), (usize, usize))>)
    requires
        span.0 <= span.1 <= v@.len(),
    ensures
        r is None <==> !has_colon(span_text(v@, span)),
        r matches Some(kv) ==> {
            &&& kv.0.0 <= kv.0.1 <= v@.len()
            &&& kv.1.0 <= kv.1.1 <= v@.len()
            &&& span_text(v@, kv.0) == field_key(span_text(v@, span))
            &&& span_text(v@, kv.1) == field_value(span_text(v@, span))
        },
{
    let (lo, hi) = span;
    let ghost line = span_text(v@, span);
    let c: usize = find_char(v, lo, hi, ':');
    if c == hi {
        return None;
    }
    assert(line.take(first_of(line, ':') as int) == v@.subrange(lo as int, c as int));
    assert(line.skip(first_of(line, ':') + 1int) == v@.subrange(c + 1, hi as int));
    let key = trim_bounds(v, lo, c);
    let (a, b) = trim_bounds(v, c + 1, hi);
    let value = strip_bounds(CharClass::Quote, v, a, b);
    Some((key, value))
}

/// The spans of the lines `ls` of `v`, as [`line_spans`] gives them.
pub open spec fn spans_of(v: Seq<char>, spans: Seq<(usize, usize)>, ls: Seq<Seq<char>>) -> bool {
    &&& spans.len() == ls.len()
    &&& forall|m: int|
        0 <= m < spans.len() ==> {
            &&& (#[trigger] spans[m]).0 <= spans[m].1 <= v.len()
            &&& span_text(v, spans[m]) == ls[m]
        }
}

/// Scans the front matter of the lines at `spans`: the spans of the last
/// non-empty `name` value and of the last `description` value, and where the
/// body starts.
fn scan_front_matter(v: &[char], spans: &Vec<(usize, usize)>, Ghost(ls): Ghost<Seq<Seq<char>>>) -> (r: (
    Option<(usize, usize)>,
    Option<(usize, usize)>,
    usize,
))
    requires
        spans_of(v@, spans@, ls),
    ensures
        r.0 matches Some(s) ==> s.0 <= s.1 <= v@.len(),
        r.1 matches Some(s) ==> s.0 <= s.1 <= v@.len(),
        span_option(v@, r.0) == (if has_front_matter(ls) {
            last_field(ls, fields_end(ls), "name"@, true)
        } else {
            None
        }),
        span_option(v@, r.1) == (if has_front_matter(ls) {
            last_field(ls, fields_end(ls), "description"@, false)
        } else {
            None
        }),
        r.2 == body_start(ls),
        r.2 <= ls.len(),
{
    let mut name: Option<(usize, usize)> = None;
    let mut description: Option<(usize, usize)> = None;
    if spans.len() == 0 || !is_fence_line(v, spans[0]) {
        return (None, None, 0);
    }
    proof {
        reveal_strlit("name");
        reveal_strlit("description");
        assert("name"@.len() != "description"@.len());
    }
    let mut close: usize = 1;
    while close < spans.len() && !is_fence_line(v, spans[close])
        invariant
            1 <= close <= spans@.len(),
            spans_of(v@, spans@, ls),
            fence_from(ls, 1) == fence_from(ls, close as int),
        decreases spans@.len() - close,
    {
        close += 1;
    }
    assert(fence_from(ls, close as int) == close as int);
    let mut k: usize = 1;
    while k < close
        invariant
            1 <= k <= close <= spans@.len(),
            spans_of(v@, spans@, ls),
            "name"@ != "description"@,
            name matches Some(s) ==> s.0 <= s.1 <= v@.len(),
            description matches Some(s) ==> s.0 <= s.1 <= v@.len(),
            span_option(v@, name) == last_field(ls, k as int, "name"@, true),
            span_option(v@, description) == last_field(ls, k as int, "description"@, false),
        decreases close - k,
    {
        if let Some((key, value)) = field_spans(v, spans[k]) {
            if range_eq(v, key.0, key.1, "name") {
                if value.0 < value.1 {
                    name = Some(value);
                }
            } else if range_eq(v, key.0, key.1, "description") {
                description = Some(value);
            }
        }
        k += 1;
    }
    let body_at: usize = if close < spans.len() {
        close + 1
    } else {
        spans.len()
    };
    (name, description, body_at)
}

/// The span of the first non-empty heading among the lines at `spans[k..]`.
fn find_heading(v: &[char], spans: &Vec<(usize, usize)>, k0: usize, Ghost(ls): Ghost<Seq<Seq<char>>>) -> (r: Option<(usize, usize)>)
    requires
        spans_of(v@, spans@, ls),
        k0 <= ls.len(),
    ensures
        r matches Some(s) ==> s.0 <= s.1 <= v@.len() && span_text(v@, s) == first_heading(ls, k0 as int),
        r is None ==> first_heading(ls, k0 as int) == Seq::<char>::empty(),
{
    let mut k: usize = k0;
    while k < spans.len()
        invariant
            k0 <= k <= spans@.len(),
            spans_of(v@, spans@, ls),
            first_heading(ls, k0 as int) == first_heading(ls, k as int),
        decreases spans@.len() - k,
    {
        let (lo, hi) = spans[k];
        let (a, b) = trim_bounds(v, lo, hi);
        let c: usize = strip_start_at(CharClass::Hash, v, a, b);
        let (d, e) = trim_bounds(v, c, b);
        if d < e {
            return Some((d, e));
        }
        k += 1;
    }
    None
}

/// The name and description that a `SKILL.md` gives, `fallback_name` standing
/// in for a missing name.
pub fn parse(text: &str, fallback_name: &str) -> (r: (String, String))
    ensures
        r.0@ == skill_name(text@, fallback_name@),
        r.1@ == skill_description(text@),
{
    let v = chars_of(text);
    assert(v@.subrange(0, v@.len() as int) == v@);
    let spans = line_spans(v.as_slice(), 0, v.len());
    let ghost ls = lines(text@);
    let (name, description, body_at) = scan_front_matter(v.as_slice(), &spans, Ghost(ls));
    let out_name = match name {
        Some((a, b)) => string_from(v.as_slice(), a, b),
        None => {
            let f = chars_of(fallback_name);
            assert(f@.subrange(0, f@.len() as int) == f@);
            string_from(f.as_slice(), 0, f.len())
        },
    };
    let out_description = match description {
        Some((a, b)) if a < b => string_from(v.as_slice(), a, b),
        _ => match find_heading(v.as_slice(), &spans, body_at, Ghost(ls)) {
            Some((a, b)) => string_from(v.as_slice(), a, b),
            None => String::new(),
        },
    };
    (out_name, out_description)
}

/// The skills section of the system prompt for `skills`.
pub fn render(skills: &[Skill]) -> (text: String)
    ensures
        text@ == skills_section(views(skills@)),
{
    if skills.len() == 0 {
        return String::new();
    }
    let mut text = String::new();
    push_str(&mut text, SKILLS_HEADER);
    let mut k: usize = 0;
    while k < skills.len()
        invariant
            0 <= k <= skills@.len(),
            text@ == SKILLS_HEADER@ + skill_entries(views(skills@).take(k as int)),
        decreases skills@.len() - k,
    {
        let skill = &skills[k];
        let ghost before = text@;
        push_str(&mut text, ENTRY_LEAD);
        push_str(&mut text, skill.name.as_str());
        push_str(&mut text, ENTRY_NAME_END);
        if skill.description.as_str().is_empty() {
            push_str(&mut text, NO_DESCRIPTION);
        } else {
            push_str(&mut text, skill.description.as_str());
        }
        push_str(&mut text, ENTRY_PATH_LEAD);
        push_str(&mut text, skill.path.as_str());
        push_str(&mut text, ENTRY_END);
        proof {
            let vs = views(skills@);
            assert(vs.take(k + 1).drop_last() == vs.take(k as int));
            assert(vs.take(k + 1).last() == skill@);
            assert(text@ == before + skill_entry(skill@));
        }
        k += 1;
    }
    assert(views(skills@).take(skills@.len() as int) == views(skills@));
    text
}

/// The section of the system prompt that lists `skills`.
pub fn prompt_section(skills: &[Skill]) -> (text: String)
    ensures
        text@ == skills_section(views(skills@)),
{
    render(skills)
}

/// Whether a skill is named `n`.
pub open spec fn named(n: Seq<char>) -> spec_fn(SkillView) -> bool {
    |s: SkillView| s.name == n
}

/// Whether `a` and `b` hold the same skills of each name, in the same order.
pub open spec fn same_names(a: Seq<SkillView>, b: Seq<SkillView>) -> bool {
    forall|n: Seq<char>| #[trigger] a.filter(named(n)) == b.filter(named(n))
}

/// The skills that `sources` describe, in order of their names; skills of
/// the same name keep the order of their sources.
pub fn load(sources: Vec<SkillSource>) -> (skills: Vec<Skill>)
    ensures
        skills@.len() == sources@.len(),
        views(skills@).to_multiset() == sources@.map_values(|s: SkillSource| source_skill(s)).to_multiset(),
        sorted_by_name(views(skills@)),
        same_names(views(skills@), sources@.map_values(|s: SkillSource| source_skill(s))),
{
    broadcast use vstd::seq_lib::group_to_multiset_ensures;

    let ghost wanted = sources@.map_values(|s: SkillSource| source_skill(s));
    let mut out: Vec<Skill> = Vec::new();
    let mut k: usize = 0;
    assert(views(out@) =~= wanted.take(0));
    while k < sources.len()
        invariant
            0 <= k <= sources@.len(),
            wanted == sources@.map_values(|s: SkillSource| source_skill(s)),
            out@.len() == k,
            views(out@).to_multiset() == wanted.take(k as int).to_multiset(),
            sorted_by_name(views(out@)),
            same_names(views(out@), wanted.take(k as int)),
        decreases sources@.len() - k,
    {
        let src = &sources[k];
        let (name, description) = parse(src.text.as_str(), src.fallback.as_str());
        let skill = Skill { name, description, path: src.path.clone() };
        assert(skill@ == wanted[k as int]);
        let key = chars_of(skill.name.as_str());
        let mut pos: usize = 0;
        while pos < out.len() && chars_le(chars_of(out[pos].name.as_str()).as_slice(), key.as_slice())
            invariant
                0 <= pos <= out@.len(),
                key@ == skill.name@,
                forall|i: int| 0 <= i < pos ==> text_le(out@[i].name@, skill.name@),
            decreases out@.len() - pos,
        {
            pos += 1;
        }
        let ghost before = views(out@);
        proof {
            if pos < out@.len() {
                lemma_text_le_total(skill.name@, out@[pos as int].name@);
            }
            assert forall|i: int, j: int|
                0 <= i < j < before.len() + 1 implies text_le(
                before.insert(pos as int, skill@)[i].name,
                before.insert(pos as int, skill@)[j].name,
            ) by {
                let t = before.insert(pos as int, skill@);
                if j == pos {
                } else if i == pos {
                    if j - 1 > pos {
                        lemma_text_le_transitive(
                            skill.name@,
                            before[pos as int].name,
                            before[j - 1].name,
                        );
                    }
                } else if i < pos && j > pos {
                } else {
                }
            }
            lemma_insert_to_multiset(before, pos as int, skill@);
            assert(wanted.take(k + 1) == wanted.take(k as int).push(wanted[k as int]));
            assert forall|j: int| pos <= j < before.len() implies before[j].name != skill.name@ by {
                if before[j].name == skill.name@ {
                    if j > pos {
                        lemma_text_le_transitive(before[pos as int].name, before[j].name, skill.name@);
                    } else {
                        lemma_text_le_reflexive(skill.name@);
                    }
                }
            }
            assert forall|n: Seq<char>| #[trigger] before.insert(pos as int, skill@).filter(named(n))
                == wanted.take(k + 1).filter(named(n)) by {
                lemma_insert_filter(before, pos as int, skill@, named(n));
                wanted.take(k as int).lemma_filter_push(wanted[k as int], named(n));
            }
        }
        out.insert(pos, skill);
        assert(views(out@) == before.insert(pos as int, wanted[k as int]));
        assert(views(out@).to_multiset() == wanted.take(k + 1).to_multiset()) by {
            wanted.take(k as int).to_multiset_ensures();
            assert(wanted.take(k as int).push(wanted[k as int]).to_multiset()
                == wanted.take(k as int).to_multiset().insert(wanted[k as int]));
        }
        k += 1;
    }
    assert(wanted.take(sources@.len() as int) == wanted);
    out
}

} // verus!
