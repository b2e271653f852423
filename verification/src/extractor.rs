//! The result extractor: turns the model's free-form text output into an
//! `Analysis`. Models wrap their structured output unpredictably — inside a
//! language-tagged code fence, inside a bare fence, or not at all — so
//! extraction first selects the fenced block if any, then slices to the
//! `<analysis>` element if its tags are present, and finally parses that
//! block against the fixed schema. The whole pipeline is specified by
//! `extract_spec` and implemented by `extract`.
//!
//! Leaf text travels verbatim: the parser decodes no character entities, and
//! the wire form written by `to_wire` quotes none. Text that itself holds
//! markup — a `<`, or a backtick run that would read as a code fence —
//! cannot ride inside an element; that is a deliberate convention of this
//! wire form, and the round-trip law states it as its one hypothesis.

use vstd::prelude::*;
use vstd::string::StrSliceExecFns;

use crate::analysis::{Analysis, AnalysisV, BasicInfo, BasicInfoV, Experience, PairV, Skills};
use crate::error::AppError;
use crate::text::{
    chars_of, copy_range, find_from, find_sub, has_sub, is_match_at, is_ws, lemma_find_from,
    lemma_match_at_char, lemma_match_at_prefix, lemma_match_transfer, match_at, parse_u32_range,
    parse_u32_seq, push_all, skip_ws, skip_ws_from, trim_range, trim_seq,
};

verus! {

// ------------------------------------------------------------------
// Selecting the block to parse: fences, trimming, the analysis element
// ------------------------------------------------------------------

/// The opening of a language-tagged code fence, as models emit it.
pub open spec fn lang_fence() -> Seq<char> {
    "```xml"@
}

/// A bare code fence.
pub open spec fn plain_fence() -> Seq<char> {
    "```"@
}

/// The start tag of the analysis element.
pub open spec fn analysis_open() -> Seq<char> {
    "<analysis>"@
}

/// The end tag of the analysis element.
pub open spec fn analysis_close() -> Seq<char> {
    "</analysis>"@
}

/// The text between the first language-tagged fence and the next fence; else
/// between the first pair of bare fences; else the whole text. A missing
/// closing fence yields everything after the opening one.
pub open spec fn fence_body(s: Seq<char>) -> Seq<char> {
    if find_from(s, lang_fence(), 0) is Some {
        let a = find_from(s, lang_fence(), 0)->Some_0 + lang_fence().len();
        match find_from(s, plain_fence(), a) {
            Some(b) => s.subrange(a, b),
            None => s.subrange(a, s.len() as int),
        }
    } else if find_from(s, plain_fence(), 0) is Some {
        let a = find_from(s, plain_fence(), 0)->Some_0 + plain_fence().len();
        match find_from(s, plain_fence(), a) {
            Some(b) => s.subrange(a, b),
            None => s.subrange(a, s.len() as int),
        }
    } else {
        s
    }
}

/// The slice from the start tag through the first matching end tag after it,
/// both inclusive; the whole text when either tag is missing.
pub open spec fn tag_slice(u: Seq<char>) -> Seq<char> {
    match find_from(u, analysis_open(), 0) {
        Some(s) => match find_from(u, analysis_close(), s) {
            Some(e) => u.subrange(s, e + analysis_close().len()),
            None => u,
        },
        None => u,
    }
}

/// The substring of the raw model output that is parsed against the schema.
pub open spec fn select_block(s: Seq<char>) -> Seq<char> {
    tag_slice(trim_seq(fence_body(s)))
}

// ------------------------------------------------------------------
// The fixed schema, as a recursive-descent grammar over characters
// ------------------------------------------------------------------

/// The start tag for an element name.
pub open spec fn otag(t: &str) -> Seq<char> {
    seq!['<'] + t@ + seq!['>']
}

/// The end tag for an element name.
pub open spec fn ctag(t: &str) -> Seq<char> {
    seq!['<', '/'] + t@ + seq!['>']
}

/// Position of the next `<` at or after `i`, or the end of the text.
pub open spec fn scan_to_lt(u: Seq<char>, i: int) -> int
    recommends
        0 <= i <= u.len(),
    decreases u.len() - i,
        when 0 <= i <= u.len()
{
    if i < u.len() && u[i] != '<' {
        scan_to_lt(u, i + 1)
    } else {
        i
    }
}

/// Consume optional whitespace, then exactly the literal `p`; the position
/// after it, or `None` when `p` is not next.
pub open spec fn p_lit(u: Seq<char>, i: int, p: Seq<char>) -> Option<int> {
    let a = skip_ws_from(u, i);
    if match_at(u, p, a) {
        Some(a + p.len())
    } else {
        None
    }
}

/// Consume a leaf element `<t>value</t>`: optional whitespace, the start tag,
/// then every character up to the next `<`, which must begin the end tag.
pub open spec fn p_leaf(u: Seq<char>, i: int, t: &str) -> Option<(Seq<char>, int)> {
    match p_lit(u, i, otag(t)) {
        Some(a) => {
            let e = scan_to_lt(u, a);
            if match_at(u, ctag(t), e) {
                Some((u.subrange(a, e), e + ctag(t).len()))
            } else {
                None
            }
        }
        None => None,
    }
}

/// Consume a possibly empty run of `<item>` leaves.
pub open spec fn p_items(u: Seq<char>, i: int) -> Option<(Seq<Seq<char>>, int)>
    recommends
        0 <= i <= u.len(),
    decreases u.len() - i,
        when 0 <= i <= u.len()
{
    if match_at(u, otag("item"), skip_ws_from(u, i)) {
        match p_leaf(u, i, "item") {
            Some((v, j)) => {
                if i < j <= u.len() {
                    match p_items(u, j) {
                        Some((vs, k)) => Some((seq![v] + vs, k)),
                        None => None,
                    }
                } else {
                    None
                }
            }
            None => None,
        }
    } else {
        Some((Seq::empty(), i))
    }
}

/// Consume a list element `<t>` with zero or more `<item>` children; the
/// items default to the empty list when the wrapping tags are present but
/// hold none.
pub open spec fn p_list(u: Seq<char>, i: int, t: &str) -> Option<(Seq<Seq<char>>, int)> {
    match p_lit(u, i, otag(t)) {
        Some(j) => match p_items(u, j) {
            Some((vs, k)) => match p_lit(u, k, ctag(t)) {
                Some(m) => Some((vs, m)),
                None => None,
            },
            None => None,
        },
        None => None,
    }
}

/// Consume a level/details element `<t><level>..</level><details>..</details></t>`.
pub open spec fn p_pair(u: Seq<char>, i: int, t: &str) -> Option<(PairV, int)> {
    match p_lit(u, i, otag(t)) {
        Some(j0) => match p_leaf(u, j0, "level") {
            Some((lv, j1)) => match p_leaf(u, j1, "details") {
                Some((dt, j2)) => match p_lit(u, j2, ctag(t)) {
                    Some(j) => Some((PairV { level: lv, details: dt }, j)),
                    None => None,
                },
                None => None,
            },
            None => None,
        },
        None => None,
    }
}

/// Consume the `<basic_info>` element with its twelve required fields.
pub open spec fn p_basic_info(u: Seq<char>, i: int) -> Option<(BasicInfoV, int)> {
    match p_lit(u, i, otag("basic_info")) {
        Some(j0) => match p_leaf(u, j0, "name") {
            Some((name, j1)) => match p_leaf(u, j1, "gender") {
                Some((gender, j2)) => match p_leaf(u, j2, "age") {
                    Some((age, j3)) => match p_leaf(u, j3, "phone") {
                        Some((phone, j4)) => match p_leaf(u, j4, "email") {
                            Some((email, j5)) => match p_leaf(u, j5, "location") {
                                Some((location, j6)) => match p_leaf(u, j6, "work_years") {
                                    Some((work_years, j7)) => match p_leaf(u, j7, "degree") {
                                        Some((degree, j8)) => match p_leaf(u, j8, "major") {
                                            Some((major, j9)) => match p_leaf(u, j9, "school") {
                                                Some((school, j10)) => match p_leaf(
                                                    u,
                                                    j10,
                                                    "current_company",
                                                ) {
                                                    Some((current_company, j11)) => match p_leaf(
                                                        u,
                                                        j11,
                                                        "current_position",
                                                    ) {
                                                        Some((current_position, j12)) => match p_lit(
                                                            u,
                                                            j12,
                                                            ctag("basic_info"),
                                                        ) {
                                                            Some(j) => Some(
                                                                (
                                                                    BasicInfoV {
                                                                        name,
                                                                        gender,
                                                                        age,
                                                                        phone,
                                                                        email,
                                                                        location,
                                                                        work_years,
                                                                        degree,
                                                                        major,
                                                                        school,
                                                                        current_company,
                                                                        current_position,
                                                                    },
                                                                    j,
                                                                ),
                                                            ),
                                                            None => None,
                                                        },
                                                        None => None,
                                                    },
                                                    None => None,
                                                },
                                                None => None,
                                            },
                                            None => None,
                                        },
                                        None => None,
                                    },
                                    None => None,
                                },
                                None => None,
                            },
                            None => None,
                        },
                        None => None,
                    },
                    None => None,
                },
                None => None,
            },
            None => None,
        },
        None => None,
    }
}

/// Parse a whole selected block against the schema: the `<analysis>` element
/// with all required children in order, nothing but whitespace after it.
pub open spec fn p_analysis(u: Seq<char>) -> Option<AnalysisV> {
    match p_lit(u, 0, otag("analysis")) {
        Some(i0) => match p_basic_info(u, i0) {
            Some((bi, i1)) => match p_leaf(u, i1, "score") {
                Some((sc, i2)) => match parse_u32_seq(sc) {
                    Some(score) => match p_leaf(u, i2, "summary") {
                        Some((summary, i3)) => match p_pair(u, i3, "skills") {
                            Some((skills, i4)) => match p_pair(u, i4, "experience") {
                                Some((experience, i5)) => match p_list(u, i5, "strengths") {
                                    Some((strengths, i6)) => match p_list(u, i6, "concerns") {
                                        Some((concerns, i7)) => match p_list(u, i7, "focus") {
                                            Some((focus, i8)) => match p_lit(
                                                u,
                                                i8,
                                                ctag("analysis"),
                                            ) {
                                                Some(i9) => if skip_ws_from(u, i9) == u.len() {
                                                    Some(
                                                        AnalysisV {
                                                            basic_info: bi,
                                                            score,
                                                            summary,
                                                            skills,
                                                            experience,
                                                            strengths,
                                                            concerns,
                                                            focus,
                                                        },
                                                    )
                                                } else {
                                                    None
                                                },
                                                None => None,
                                            },
                                            None => None,
                                        },
                                        None => None,
                                    },
                                    None => None,
                                },
                                None => None,
                            },
                            None => None,
                        },
                        None => None,
                    },
                    None => None,
                },
                None => None,
            },
            None => None,
        },
        None => None,
    }
}

/// What extraction yields for raw model output: the parse of the selected
/// block, or nothing when that block does not match the schema.
pub open spec fn extract_spec(raw: Seq<char>) -> Option<AnalysisV> {
    p_analysis(select_block(raw))
}

// ------------------------------------------------------------------
// The wire form of an analysis: the exact element layout the schema
// describes, with no whitespace between elements
// ------------------------------------------------------------------

/// One leaf element.
pub open spec fn leaf_wire(t: &str, v: Seq<char>) -> Seq<char> {
    otag(t) + v + ctag(t)
}

/// A run of item leaves, in order.
pub open spec fn items_wire(vs: Seq<Seq<char>>) -> Seq<char>
    decreases vs.len(),
{
    if vs.len() == 0 {
        Seq::empty()
    } else {
        leaf_wire("item", vs.first()) + items_wire(vs.drop_first())
    }
}

/// One list element with its items.
pub open spec fn list_wire(t: &str, vs: Seq<Seq<char>>) -> Seq<char> {
    otag(t) + items_wire(vs) + ctag(t)
}

/// One level/details element.
pub open spec fn pair_wire(t: &str, p: PairV) -> Seq<char> {
    otag(t) + leaf_wire("level", p.level) + leaf_wire("details", p.details) + ctag(t)
}

/// The basic-info element with its twelve fields.
pub open spec fn basic_wire(b: BasicInfoV) -> Seq<char> {
    otag("basic_info") + leaf_wire("name", b.name) + leaf_wire("gender", b.gender) + leaf_wire(
        "age",
        b.age,
    ) + leaf_wire("phone", b.phone) + leaf_wire("email", b.email) + leaf_wire("location",
        b.location) + leaf_wire("work_years", b.work_years) + leaf_wire("degree", b.degree)
        + leaf_wire("major", b.major) + leaf_wire("school", b.school) + leaf_wire(
        "current_company",
        b.current_company,
    ) + leaf_wire("current_position", b.current_position) + ctag("basic_info")
}

/// A whole analysis in wire form.
pub open spec fn wire_of(v: AnalysisV) -> Seq<char> {
    otag("analysis") + basic_wire(v.basic_info) + leaf_wire("score", crate::text::dec_rep(
        v.score as int,
    )) + leaf_wire("summary", v.summary) + pair_wire("skills", v.skills) + pair_wire(
        "experience",
        v.experience,
    ) + list_wire("strengths", v.strengths) + list_wire("concerns", v.concerns) + list_wire(
        "focus",
        v.focus,
    ) + ctag("analysis")
}

/// Text that cannot disturb the wire structure around it: it holds no `<`
/// and no backtick.
pub open spec fn clean_text(s: Seq<char>) -> bool {
    forall|k: int| 0 <= k < s.len() ==> s[k] != '<' && s[k] != '`'
}

pub open spec fn all_clean(vs: Seq<Seq<char>>) -> bool {
    forall|k: int| 0 <= k < vs.len() ==> clean_text(#[trigger] vs[k])
}

/// An analysis whose text fields are all clean.
pub open spec fn wire_clean(v: AnalysisV) -> bool {
    &&& clean_text(v.basic_info.name)
    &&& clean_text(v.basic_info.gender)
    &&& clean_text(v.basic_info.age)
    &&& clean_text(v.basic_info.phone)
    &&& clean_text(v.basic_info.email)
    &&& clean_text(v.basic_info.location)
    &&& clean_text(v.basic_info.work_years)
    &&& clean_text(v.basic_info.degree)
    &&& clean_text(v.basic_info.major)
    &&& clean_text(v.basic_info.school)
    &&& clean_text(v.basic_info.current_company)
    &&& clean_text(v.basic_info.current_position)
    &&& clean_text(v.summary)
    &&& clean_text(v.skills.level)
    &&& clean_text(v.skills.details)
    &&& clean_text(v.experience.level)
    &&& clean_text(v.experience.details)
    &&& all_clean(v.strengths)
    &&& all_clean(v.concerns)
    &&& all_clean(v.focus)
}

// ------------------------------------------------------------------
// Extraction failure: without the analysis element nothing parses
// ------------------------------------------------------------------

/// Whatever the fences and trimming select is one contiguous slice of the
/// raw text.
proof fn lemma_select_block_subrange(s: Seq<char>)
    ensures
        exists|a: int, b: int|
            0 <= a <= b <= s.len() && select_block(s) == s.subrange(a, b),
{
    let n = s.len() as int;
    let fence: (int, int) = if find_from(s, lang_fence(), 0) is Some {
        let p = find_from(s, lang_fence(), 0)->Some_0;
        lemma_find_from(s, lang_fence(), 0);
        let a = p + lang_fence().len();
        match find_from(s, plain_fence(), a) {
            Some(b) => {
                lemma_find_from(s, plain_fence(), a);
                (a, b)
            }
            None => (a, n),
        }
    } else if find_from(s, plain_fence(), 0) is Some {
        let p = find_from(s, plain_fence(), 0)->Some_0;
        lemma_find_from(s, plain_fence(), 0);
        let a = p + plain_fence().len();
        match find_from(s, plain_fence(), a) {
            Some(b) => {
                lemma_find_from(s, plain_fence(), a);
                (a, b)
            }
            None => (a, n),
        }
    } else {
        (0, n)
    };
    let (f1, f2) = fence;
    assert(0 <= f1 <= f2 <= n);
    let t = fence_body(s);
    assert(t =~= s.subrange(f1, f2)) by {
        assert(s.subrange(0, n) =~= s);
    }
    let a0 = skip_ws_from(t, 0);
    let b0 = crate::text::rskip_ws_from(t, t.len() as int);
    crate::text::lemma_skip_ws_from(t, 0);
    crate::text::lemma_rskip_ws_from(t, t.len() as int);
    let trimmed: (int, int) = if a0 <= b0 {
        (f1 + a0, f1 + b0)
    } else {
        (f1, f1)
    };
    let (g1, g2) = trimmed;
    let u = trim_seq(t);
    assert(u =~= s.subrange(g1, g2));
    let tagged: (int, int) = match find_from(u, analysis_open(), 0) {
        Some(st) => {
            lemma_find_from(u, analysis_open(), 0);
            match find_from(u, analysis_close(), st) {
                Some(e) => {
                    lemma_find_from(u, analysis_close(), st);
                    (g1 + st, g1 + e + analysis_close().len())
                }
                None => (g1, g2),
            }
        }
        None => (g1, g2),
    };
    let (h1, h2) = tagged;
    assert(select_block(s) =~= s.subrange(h1, h2));
    assert(0 <= h1 <= h2 <= n);
}

/// Extraction failure: output that nowhere holds the analysis start tag
/// cannot be extracted, whatever fences and prose surround it — and on such
/// input `extract` hands back a parse error carrying the text itself.
pub proof fn lemma_extract_needs_element(raw: Seq<char>)
    requires
        !has_sub(raw, "<analysis>"@),
    ensures
        extract_spec(raw) is None,
{
    reveal_strlit("<analysis>");
    reveal_strlit("analysis");
    assert(otag("analysis") =~= "<analysis>"@);
    lemma_select_block_subrange(raw);
    let (a, b) = choose|a: int, b: int|
        0 <= a <= b <= raw.len() && select_block(raw) == raw.subrange(a, b);
    let u = select_block(raw);
    let w = skip_ws_from(u, 0);
    crate::text::lemma_skip_ws_from(u, 0);
    if match_at(u, otag("analysis"), w) {
        assert forall|i: int| 0 <= i < u.len() implies #[trigger] raw[a + i] == u[i] by {
            assert(raw.subrange(a, b)[i] == raw[a + i]);
        }
        lemma_match_transfer(raw, u, a, otag("analysis"), a + w);
        assert(match_at(raw, otag("analysis"), a + w));
        assert(match_at(raw, "<analysis>"@, a + w));
        assert(has_sub(raw, "<analysis>"@));
    }
    assert(p_lit(u, 0, otag("analysis")) is None);
}

/// Extraction failure, the other half: output that nowhere holds the closing
/// analysis tag cannot be extracted either — a successful parse would have
/// consumed that tag.
#[verifier::rlimit(100)]
pub proof fn lemma_extract_needs_close(raw: Seq<char>)
    requires
        !has_sub(raw, "</analysis>"@),
    ensures
        extract_spec(raw) is None,
{
    reveal_strlit("</analysis>");
    reveal_strlit("analysis");
    assert(ctag("analysis") =~= "</analysis>"@);
    lemma_select_block_subrange(raw);
    let (a, b) = choose|a: int, b: int|
        0 <= a <= b <= raw.len() && select_block(raw) == raw.subrange(a, b);
    let u = select_block(raw);
    assert forall|i: int| 0 <= i < u.len() implies #[trigger] raw[a + i] == u[i] by {
        assert(raw.subrange(a, b)[i] == raw[a + i]);
    }
    assert forall|k: int| !match_at(u, ctag("analysis"), k) by {
        if match_at(u, ctag("analysis"), k) {
            lemma_match_transfer(raw, u, a, ctag("analysis"), a + k);
            assert(match_at(raw, "</analysis>"@, a + k));
        }
    }
    if extract_spec(raw) is Some {
        // Walk the successful parse to its final step: it must have matched
        // the closing tag somewhere in the selected block.
        let r0 = p_lit(u, 0, otag("analysis"));
        assert(r0 is Some);
        let i0 = r0->Some_0;
        let r1 = p_basic_info(u, i0);
        assert(r1 is Some);
        let i1 = r1->Some_0.1;
        let r2 = p_leaf(u, i1, "score");
        assert(r2 is Some);
        assert(parse_u32_seq(r2->Some_0.0) is Some);
        let i2 = r2->Some_0.1;
        let r3 = p_leaf(u, i2, "summary");
        assert(r3 is Some);
        let i3 = r3->Some_0.1;
        let r4 = p_pair(u, i3, "skills");
        assert(r4 is Some);
        let i4 = r4->Some_0.1;
        let r5 = p_pair(u, i4, "experience");
        assert(r5 is Some);
        let i5 = r5->Some_0.1;
        let r6 = p_list(u, i5, "strengths");
        assert(r6 is Some);
        let i6 = r6->Some_0.1;
        let r7 = p_list(u, i6, "concerns");
        assert(r7 is Some);
        let i7 = r7->Some_0.1;
        let r8 = p_list(u, i7, "focus");
        assert(r8 is Some);
        let i8 = r8->Some_0.1;
        let r9 = p_lit(u, i8, ctag("analysis"));
        assert(r9 is Some);
        assert(match_at(u, ctag("analysis"), skip_ws_from(u, i8)));
        assert(false);
    }
}

// ------------------------------------------------------------------
// Round trip, part one: the wire form of a clean analysis selects as
// itself — no fence in it, and its first closing tag is the last thing
// in it
// ------------------------------------------------------------------

/// `s` holds no occurrence of the character `c`.
pub open spec fn no_char(s: Seq<char>, c: char) -> bool {
    forall|k: int| 0 <= k < s.len() ==> s[k] != c
}

/// The head of the closing analysis tag.
spec fn close_head() -> Seq<char> {
    seq!['<', '/', 'a', 'n']
}

/// `s` can stand inside the analysis element: the closing tag's head occurs
/// nowhere in it, and its last three characters hold no `<`, so no closing
/// tag can begin in them and spill past its end.
spec fn seg_safe(s: Seq<char>) -> bool {
    &&& (forall|k: int| !match_at(s, close_head(), k))
    &&& (forall|k: int| 0 <= k < s.len() && s.len() - 3 <= k ==> s[k] != '<')
}

/// Safe segments concatenate to a safe segment.
proof fn lemma_seg_safe_concat(a: Seq<char>, b: Seq<char>)
    requires
        seg_safe(a),
        seg_safe(b),
    ensures
        seg_safe(a + b),
{
    let r = a + b;
    assert forall|k: int| !match_at(r, close_head(), k) by {
        if match_at(r, close_head(), k) {
            lemma_match_at_char(r, close_head(), k);
            if k + 4 <= a.len() {
                lemma_match_at_char(a, close_head(), k);
                assert(r[k] == a[k] && r[k + 1] == a[k + 1] && r[k + 2] == a[k + 2] && r[k + 3]
                    == a[k + 3]);
                assert(match_at(a, close_head(), k));
            } else if k >= a.len() {
                let j = k - a.len();
                lemma_match_at_char(b, close_head(), j);
                assert(r[k] == b[j] && r[k + 1] == b[j + 1] && r[k + 2] == b[j + 2] && r[k + 3]
                    == b[j + 3]);
                assert(match_at(b, close_head(), j));
            } else {
                assert(r[k] == a[k]);
                assert(a[k] != '<');
            }
        }
    }
    assert forall|k: int| 0 <= k < r.len() && r.len() - 3 <= k implies r[k] != '<' by {
        if k < a.len() {
            assert(r[k] == a[k]);
            assert(a.len() - 3 <= k);
        } else {
            assert(r[k] == b[k - a.len()]);
        }
    }
}

/// Text without `<` is a safe segment.
proof fn lemma_seg_safe_no_lt(s: Seq<char>)
    requires
        no_char(s, '<'),
    ensures
        seg_safe(s),
{
    assert forall|k: int| !match_at(s, close_head(), k) by {
        if match_at(s, close_head(), k) {
            lemma_match_at_char(s, close_head(), k);
            assert(s[k] == '<');
        }
    }
}

/// A tag text that keeps its elements out of the closing tag's way.
spec fn tag_base_ok(t: &str) -> bool {
    &&& t@.len() >= 2
    &&& t@[0] != '/'
    &&& (forall|k: int| 0 <= k < t@.len() ==> t@[k] != '<' && t@[k] != '`' && t@[k] != '>')
}

/// A start tag of such a text is a safe segment.
proof fn lemma_otag_safe(t: &str)
    requires
        tag_base_ok(t),
    ensures
        seg_safe(otag(t)),
        no_char(otag(t), '`'),
{
    let o = otag(t);
    assert forall|k: int| !match_at(o, close_head(), k) by {
        if match_at(o, close_head(), k) {
            lemma_match_at_char(o, close_head(), k);
            assert(o[k] == '<');
            if k >= 1 {
                if k < o.len() - 1 {
                    assert(o[k] == t@[k - 1]);
                } else {
                    assert(o[k] == '>');
                }
            } else {
                assert(o[1] == t@[0]);
                assert(o[k + 1] == '/');
            }
        }
    }
    assert forall|k: int| 0 <= k < o.len() && o.len() - 3 <= k implies o[k] != '<' by {
        if k >= 1 {
            if k < o.len() - 1 {
                assert(o[k] == t@[k - 1]);
            } else {
                assert(o[k] == '>');
            }
        }
    }
    assert forall|k: int| 0 <= k < o.len() implies o[k] != '`' by {
        if 1 <= k < o.len() - 1 {
            assert(o[k] == t@[k - 1]);
        }
    }
}

/// An end tag of such a text is a safe segment, as long as the text does not
/// begin like `analysis` does.
proof fn lemma_ctag_safe(t: &str)
    requires
        tag_base_ok(t),
        !(t@[0] == 'a' && t@[1] == 'n'),
    ensures
        seg_safe(ctag(t)),
        no_char(ctag(t), '`'),
{
    let c = ctag(t);
    assert forall|k: int| !match_at(c, close_head(), k) by {
        if match_at(c, close_head(), k) {
            lemma_match_at_char(c, close_head(), k);
            assert(c[k] == '<');
            if k >= 2 {
                if k < c.len() - 1 {
                    assert(c[k] == t@[k - 2]);
                } else {
                    assert(c[k] == '>');
                }
            } else if k == 1 {
                assert(c[1] == '/');
            } else {
                assert(c[2] == t@[0]);
                assert(c[3] == t@[1]);
                assert(c[k + 2] == 'a' && c[k + 3] == 'n');
            }
        }
    }
    assert forall|k: int| 0 <= k < c.len() && c.len() - 3 <= k implies c[k] != '<' by {
        if k >= 2 {
            if k < c.len() - 1 {
                assert(c[k] == t@[k - 2]);
            } else {
                assert(c[k] == '>');
            }
        } else if k == 1 {
            assert(c[1] == '/');
        }
    }
    assert forall|k: int| 0 <= k < c.len() implies c[k] != '`' by {
        if 2 <= k < c.len() - 1 {
            assert(c[k] == t@[k - 2]);
        }
    }
}

/// Clean text is a safe segment without backticks.
proof fn lemma_clean_safe(v: Seq<char>)
    requires
        clean_text(v),
    ensures
        seg_safe(v),
        no_char(v, '`'),
{
    lemma_seg_safe_no_lt(v);
}

/// Concatenation keeps segments free of backticks.
proof fn lemma_no_bt_concat(a: Seq<char>, b: Seq<char>)
    requires
        no_char(a, '`'),
        no_char(b, '`'),
    ensures
        no_char(a + b, '`'),
{
    assert forall|k: int| 0 <= k < (a + b).len() implies (a + b)[k] != '`' by {
        if k < a.len() {
            assert((a + b)[k] == a[k]);
        } else {
            assert((a + b)[k] == b[k - a.len()]);
        }
    }
}

/// A leaf of a safe tag and clean text is safe.
proof fn lemma_leaf_safe(t: &str, v: Seq<char>)
    requires
        tag_base_ok(t),
        !(t@[0] == 'a' && t@[1] == 'n'),
        clean_text(v),
    ensures
        seg_safe(leaf_wire(t, v)),
        no_char(leaf_wire(t, v), '`'),
{
    lemma_otag_safe(t);
    lemma_ctag_safe(t);
    lemma_clean_safe(v);
    lemma_seg_safe_concat(otag(t), v);
    lemma_seg_safe_concat(otag(t) + v, ctag(t));
    lemma_no_bt_concat(otag(t), v);
    lemma_no_bt_concat(otag(t) + v, ctag(t));
}

/// The `item` tag text is safe.
proof fn lemma_item_tag_ok()
    ensures
        tag_base_ok("item"),
        !("item"@[0] == 'a' && "item"@[1] == 'n'),
        "item"@.len() == 4,
        "item"@[0] == 'i',
{
    reveal_strlit("item");
}

/// A run of clean items is safe.
proof fn lemma_items_safe(vs: Seq<Seq<char>>)
    requires
        all_clean(vs),
    ensures
        seg_safe(items_wire(vs)),
        no_char(items_wire(vs), '`'),
    decreases vs.len(),
{
    lemma_item_tag_ok();
    if vs.len() == 0 {
        assert forall|k: int| !match_at(items_wire(vs), close_head(), k) by {}
    } else {
        assert(all_clean(vs.drop_first())) by {
            assert(forall|k: int| 0 <= k < vs.drop_first().len()
                ==> #[trigger] vs.drop_first()[k] == vs[k + 1]);
        }
        lemma_items_safe(vs.drop_first());
        assert(clean_text(vs.first()));
        lemma_leaf_safe("item", vs.first());
        lemma_seg_safe_concat(leaf_wire("item", vs.first()), items_wire(vs.drop_first()));
        lemma_no_bt_concat(leaf_wire("item", vs.first()), items_wire(vs.drop_first()));
    }
}

/// A list of a safe tag and clean items is safe.
proof fn lemma_list_safe(t: &str, vs: Seq<Seq<char>>)
    requires
        tag_base_ok(t),
        !(t@[0] == 'a' && t@[1] == 'n'),
        all_clean(vs),
    ensures
        seg_safe(list_wire(t, vs)),
        no_char(list_wire(t, vs), '`'),
{
    lemma_otag_safe(t);
    lemma_ctag_safe(t);
    lemma_items_safe(vs);
    lemma_seg_safe_concat(otag(t), items_wire(vs));
    lemma_seg_safe_concat(otag(t) + items_wire(vs), ctag(t));
    lemma_no_bt_concat(otag(t), items_wire(vs));
    lemma_no_bt_concat(otag(t) + items_wire(vs), ctag(t));
}

/// A level/details element of a safe tag and clean texts is safe.
proof fn lemma_pair_safe(t: &str, p: PairV)
    requires
        tag_base_ok(t),
        !(t@[0] == 'a' && t@[1] == 'n'),
        clean_text(p.level),
        clean_text(p.details),
    ensures
        seg_safe(pair_wire(t, p)),
        no_char(pair_wire(t, p), '`'),
{
    reveal_strlit("level");
    reveal_strlit("details");
    lemma_otag_safe(t);
    lemma_ctag_safe(t);
    lemma_leaf_safe("level", p.level);
    lemma_leaf_safe("details", p.details);
    lemma_seg_safe_concat(otag(t), leaf_wire("level", p.level));
    lemma_seg_safe_concat(otag(t) + leaf_wire("level", p.level), leaf_wire("details", p.details));
    lemma_seg_safe_concat(
        otag(t) + leaf_wire("level", p.level) + leaf_wire("details", p.details),
        ctag(t),
    );
    lemma_no_bt_concat(otag(t), leaf_wire("level", p.level));
    lemma_no_bt_concat(otag(t) + leaf_wire("level", p.level), leaf_wire("details", p.details));
    lemma_no_bt_concat(
        otag(t) + leaf_wire("level", p.level) + leaf_wire("details", p.details),
        ctag(t),
    );
}

// ------------------------------------------------------------------
// Round trip, part two: walking the parser over a wire form recovers
// the fields that went in
// ------------------------------------------------------------------

/// Splitting a known slice of text along its concatenation structure.
proof fn lemma_split_concat(u: Seq<char>, i: int, a: Seq<char>, b: Seq<char>)
    requires
        0 <= i,
        i + (a + b).len() <= u.len(),
        u.subrange(i, i + (a + b).len() as int) == a + b,
    ensures
        u.subrange(i, i + a.len() as int) == a,
        u.subrange(i + a.len(), i + (a + b).len() as int) == b,
{
    assert forall|m: int| 0 <= m < a.len() implies u.subrange(i, i + a.len() as int)[m]
        == a[m] by {
        assert(u.subrange(i, i + (a + b).len() as int)[m] == (a + b)[m]);
    }
    assert(u.subrange(i, i + a.len() as int) =~= a);
    assert forall|m: int| 0 <= m < b.len() implies u.subrange(
        i + a.len(),
        i + (a + b).len() as int,
    )[m] == b[m] by {
        assert(u.subrange(i, i + (a + b).len() as int)[a.len() + m] == (a + b)[a.len() + m]);
        assert(u.subrange(i, i + (a + b).len() as int)[a.len() + m] == u[i + a.len() + m]);
        assert(u.subrange(i + a.len(), i + (a + b).len() as int)[m] == u[i + a.len() + m]);
        assert((a + b)[a.len() + m] == b[m]);
    }
    assert(u.subrange(i + a.len(), i + (a + b).len() as int) =~= b);
}

/// The scan to `<` stops exactly at the first one.
proof fn lemma_scan_stop(u: Seq<char>, i: int, e: int)
    requires
        0 <= i <= e <= u.len(),
        forall|m: int| i <= m < e ==> u[m] != '<',
        e < u.len() ==> u[e] == '<',
    ensures
        scan_to_lt(u, i) == e,
    decreases e - i,
{
    if i < e {
        lemma_scan_stop(u, i + 1, e);
    }
}

/// A literal sitting at the position parses as itself.
proof fn lemma_walk_lit(u: Seq<char>, i: int, p: Seq<char>)
    requires
        0 <= i,
        i + p.len() <= u.len(),
        u.subrange(i, i + p.len()) == p,
        p.len() >= 1,
        p[0] == '<',
    ensures
        p_lit(u, i, p) == Some(i + p.len()),
{
    assert(u[i] == p[0]) by {
        assert(u.subrange(i, i + p.len())[0] == p[0]);
    }
    assert(!is_ws(u[i]));
    assert(skip_ws_from(u, i) == i);
}

/// A leaf sitting at the position parses as its text.
proof fn lemma_walk_leaf(u: Seq<char>, i: int, t: &str, v: Seq<char>)
    requires
        0 <= i,
        i + leaf_wire(t, v).len() <= u.len(),
        u.subrange(i, i + leaf_wire(t, v).len() as int) == leaf_wire(t, v),
        no_char(v, '<'),
    ensures
        p_leaf(u, i, t) == Some((v, i + leaf_wire(t, v).len())),
{
    let lw = leaf_wire(t, v);
    let ol = otag(t).len() as int;
    let cl = ctag(t).len() as int;
    assert forall|m: int| 0 <= m < lw.len() implies u[i + m] == lw[m] by {
        assert(u.subrange(i, i + lw.len() as int)[m] == lw[m]);
    }
    assert forall|m: int| 0 <= m < ol implies u.subrange(i, i + ol)[m] == otag(t)[m] by {
        assert(lw[m] == otag(t)[m]);
    }
    assert(u.subrange(i, i + ol) =~= otag(t));
    lemma_walk_lit(u, i, otag(t));
    let a = i + ol;
    let e = a + v.len() as int;
    assert forall|m: int| a <= m < e implies u[m] != '<' by {
        assert(lw[m - i] == v[m - i - ol]);
    }
    assert(u[e] == '<') by {
        assert(lw[e - i] == ctag(t)[0]);
    }
    lemma_scan_stop(u, a, e);
    assert forall|m: int| 0 <= m < cl implies u.subrange(e, e + cl)[m] == ctag(t)[m] by {
        assert(lw[e - i + m] == ctag(t)[m]);
    }
    assert(u.subrange(e, e + cl) =~= ctag(t));
    assert(match_at(u, ctag(t), e));
    assert forall|m: int| 0 <= m < v.len() implies u.subrange(a, e)[m] == v[m] by {
        assert(lw[m + ol] == v[m]);
    }
    assert(u.subrange(a, e) =~= v);
}

/// A run of item leaves parses as its texts, ending where an end tag begins.
proof fn lemma_walk_items(u: Seq<char>, i: int, vs: Seq<Seq<char>>)
    requires
        0 <= i,
        i + items_wire(vs).len() + 2 <= u.len(),
        u.subrange(i, i + items_wire(vs).len() as int) == items_wire(vs),
        all_clean(vs),
        u[i + items_wire(vs).len()] == '<',
        u[i + items_wire(vs).len() + 1] == '/',
    ensures
        p_items(u, i) == Some((vs, i + items_wire(vs).len())),
    decreases vs.len(),
{
    lemma_item_tag_ok();
    if vs.len() == 0 {
        assert(u[i] == '<');
        assert(skip_ws_from(u, i) == i);
        assert(!match_at(u, otag("item"), i)) by {
            if match_at(u, otag("item"), i) {
                lemma_match_at_char(u, otag("item"), i);
                assert(u[i + 1] == otag("item")[1]);
                assert(otag("item")[1] == 'i');
            }
        }
    } else {
        let w = items_wire(vs);
        let first = vs.first();
        let lw = leaf_wire("item", first);
        let rest = items_wire(vs.drop_first());
        assert(w == lw + rest);
        assert forall|m: int| 0 <= m < w.len() implies u[i + m] == w[m] by {
            assert(u.subrange(i, i + w.len() as int)[m] == w[m]);
        }
        assert(clean_text(first));
        assert forall|m: int| 0 <= m < first.len() implies first[m] != '<' by {}
        assert forall|m: int| 0 <= m < lw.len() implies u.subrange(i, i + lw.len() as int)[m]
            == lw[m] by {
            assert(w[m] == lw[m]);
        }
        assert(u.subrange(i, i + lw.len() as int) =~= lw);
        lemma_walk_leaf(u, i, "item", first);
        let j = i + lw.len() as int;
        assert(u[i] == '<') by {
            assert(w[0] == lw[0]);
            assert(lw[0] == otag("item")[0]);
        }
        assert(skip_ws_from(u, i) == i);
        assert(match_at(u, otag("item"), i)) by {
            assert forall|m: int| 0 <= m < otag("item").len() implies u.subrange(
                i,
                i + otag("item").len() as int,
            )[m] == otag("item")[m] by {
                assert(lw[m] == otag("item")[m]);
                assert(w[m] == lw[m]);
            }
            assert(u.subrange(i, i + otag("item").len() as int) =~= otag("item"));
        }
        assert(all_clean(vs.drop_first())) by {
            assert(forall|k: int| 0 <= k < vs.drop_first().len()
                ==> #[trigger] vs.drop_first()[k] == vs[k + 1]);
        }
        assert forall|m: int| 0 <= m < rest.len() implies u.subrange(j, j + rest.len() as int)[m]
            == rest[m] by {
            assert(w[lw.len() + m] == rest[m]);
        }
        assert(u.subrange(j, j + rest.len() as int) =~= rest);
        lemma_walk_items(u, j, vs.drop_first());
        assert(seq![first] + vs.drop_first() =~= vs);
    }
}

/// A list element parses as its items.
proof fn lemma_walk_list(u: Seq<char>, i: int, t: &str, vs: Seq<Seq<char>>)
    requires
        0 <= i,
        i + list_wire(t, vs).len() <= u.len(),
        u.subrange(i, i + list_wire(t, vs).len() as int) == list_wire(t, vs),
        all_clean(vs),
        t@.len() >= 1,
    ensures
        p_list(u, i, t) == Some((vs, i + list_wire(t, vs).len())),
{
    let w = list_wire(t, vs);
    let ol = otag(t).len() as int;
    let cl = ctag(t).len() as int;
    let iw = items_wire(vs);
    assert forall|m: int| 0 <= m < w.len() implies u[i + m] == w[m] by {
        assert(u.subrange(i, i + w.len() as int)[m] == w[m]);
    }
    assert forall|m: int| 0 <= m < ol implies u.subrange(i, i + ol)[m] == otag(t)[m] by {
        assert(w[m] == otag(t)[m]);
    }
    assert(u.subrange(i, i + ol) =~= otag(t));
    lemma_walk_lit(u, i, otag(t));
    let j = i + ol;
    let k = j + iw.len() as int;
    assert forall|m: int| 0 <= m < iw.len() implies u.subrange(j, j + iw.len() as int)[m]
        == iw[m] by {
        assert(w[ol + m] == iw[m]);
    }
    assert(u.subrange(j, j + iw.len() as int) =~= iw);
    assert(u[k] == '<' && u[k + 1] == '/') by {
        assert(w[k - i] == ctag(t)[0]);
        assert(w[k - i + 1] == ctag(t)[1]);
    }
    lemma_walk_items(u, j, vs);
    assert forall|m: int| 0 <= m < cl implies u.subrange(k, k + cl)[m] == ctag(t)[m] by {
        assert(w[k - i + m] == ctag(t)[m]);
    }
    assert(u.subrange(k, k + cl) =~= ctag(t));
    lemma_walk_lit(u, k, ctag(t));
}

/// A level/details element parses as its pair.
proof fn lemma_walk_pair(u: Seq<char>, i: int, t: &str, p: PairV)
    requires
        0 <= i,
        i + pair_wire(t, p).len() <= u.len(),
        u.subrange(i, i + pair_wire(t, p).len() as int) == pair_wire(t, p),
        clean_text(p.level),
        clean_text(p.details),
    ensures
        p_pair(u, i, t) == Some((p, i + pair_wire(t, p).len())),
{
    let w = pair_wire(t, p);
    let ol = otag(t).len() as int;
    let cl = ctag(t).len() as int;
    let l1 = leaf_wire("level", p.level);
    let l2 = leaf_wire("details", p.details);
    assert forall|m: int| 0 <= m < w.len() implies u[i + m] == w[m] by {
        assert(u.subrange(i, i + w.len() as int)[m] == w[m]);
    }
    assert forall|m: int| 0 <= m < ol implies u.subrange(i, i + ol)[m] == otag(t)[m] by {
        assert(w[m] == otag(t)[m]);
    }
    assert(u.subrange(i, i + ol) =~= otag(t));
    lemma_walk_lit(u, i, otag(t));
    let j0 = i + ol;
    assert forall|m: int| 0 <= m < l1.len() implies u.subrange(j0, j0 + l1.len() as int)[m]
        == l1[m] by {
        assert(w[ol + m] == l1[m]);
    }
    assert(u.subrange(j0, j0 + l1.len() as int) =~= l1);
    assert forall|m: int| 0 <= m < p.level.len() implies p.level[m] != '<' by {}
    lemma_walk_leaf(u, j0, "level", p.level);
    let j1 = j0 + l1.len() as int;
    assert forall|m: int| 0 <= m < l2.len() implies u.subrange(j1, j1 + l2.len() as int)[m]
        == l2[m] by {
        assert(w[ol + l1.len() + m] == l2[m]);
    }
    assert(u.subrange(j1, j1 + l2.len() as int) =~= l2);
    assert forall|m: int| 0 <= m < p.details.len() implies p.details[m] != '<' by {}
    lemma_walk_leaf(u, j1, "details", p.details);
    let j2 = j1 + l2.len() as int;
    assert forall|m: int| 0 <= m < cl implies u.subrange(j2, j2 + cl)[m] == ctag(t)[m] by {
        assert(w[j2 - i + m] == ctag(t)[m]);
    }
    assert(u.subrange(j2, j2 + cl) =~= ctag(t));
    lemma_walk_lit(u, j2, ctag(t));
}

/// The basic-info element parses as its twelve fields.
#[verifier::rlimit(100)]
proof fn lemma_walk_basic(u: Seq<char>, i: int, b: BasicInfoV)
    requires
        0 <= i,
        i + basic_wire(b).len() <= u.len(),
        u.subrange(i, i + basic_wire(b).len() as int) == basic_wire(b),
        clean_text(b.name),
        clean_text(b.gender),
        clean_text(b.age),
        clean_text(b.phone),
        clean_text(b.email),
        clean_text(b.location),
        clean_text(b.work_years),
        clean_text(b.degree),
        clean_text(b.major),
        clean_text(b.school),
        clean_text(b.current_company),
        clean_text(b.current_position),
    ensures
        p_basic_info(u, i) == Some((b, i + basic_wire(b).len())),
{
    let l1 = leaf_wire("name", b.name);
    let l2 = leaf_wire("gender", b.gender);
    let l3 = leaf_wire("age", b.age);
    let l4 = leaf_wire("phone", b.phone);
    let l5 = leaf_wire("email", b.email);
    let l6 = leaf_wire("location", b.location);
    let l7 = leaf_wire("work_years", b.work_years);
    let l8 = leaf_wire("degree", b.degree);
    let l9 = leaf_wire("major", b.major);
    let l10 = leaf_wire("school", b.school);
    let l11 = leaf_wire("current_company", b.current_company);
    let l12 = leaf_wire("current_position", b.current_position);
    let p0 = otag("basic_info");
    let p1 = p0 + l1;
    let p2 = p1 + l2;
    let p3 = p2 + l3;
    let p4 = p3 + l4;
    let p5 = p4 + l5;
    let p6 = p5 + l6;
    let p7 = p6 + l7;
    let p8 = p7 + l8;
    let p9 = p8 + l9;
    let p10 = p9 + l10;
    let p11 = p10 + l11;
    let p12 = p11 + l12;
    assert(basic_wire(b) == p12 + ctag("basic_info"));
    lemma_split_concat(u, i, p12, ctag("basic_info"));
    lemma_split_concat(u, i, p11, l12);
    lemma_split_concat(u, i, p10, l11);
    lemma_split_concat(u, i, p9, l10);
    lemma_split_concat(u, i, p8, l9);
    lemma_split_concat(u, i, p7, l8);
    lemma_split_concat(u, i, p6, l7);
    lemma_split_concat(u, i, p5, l6);
    lemma_split_concat(u, i, p4, l5);
    lemma_split_concat(u, i, p3, l4);
    lemma_split_concat(u, i, p2, l3);
    lemma_split_concat(u, i, p1, l2);
    lemma_split_concat(u, i, p0, l1);
    lemma_walk_lit(u, i, otag("basic_info"));
    lemma_walk_leaf(u, i + p0.len(), "name", b.name);
    lemma_walk_leaf(u, i + p1.len(), "gender", b.gender);
    lemma_walk_leaf(u, i + p2.len(), "age", b.age);
    lemma_walk_leaf(u, i + p3.len(), "phone", b.phone);
    lemma_walk_leaf(u, i + p4.len(), "email", b.email);
    lemma_walk_leaf(u, i + p5.len(), "location", b.location);
    lemma_walk_leaf(u, i + p6.len(), "work_years", b.work_years);
    lemma_walk_leaf(u, i + p7.len(), "degree", b.degree);
    lemma_walk_leaf(u, i + p8.len(), "major", b.major);
    lemma_walk_leaf(u, i + p9.len(), "school", b.school);
    lemma_walk_leaf(u, i + p10.len(), "current_company", b.current_company);
    lemma_walk_leaf(u, i + p11.len(), "current_position", b.current_position);
    lemma_walk_lit(u, i + p12.len(), ctag("basic_info"));
}

/// The text of each element tag keeps out of the closing tag's way.
proof fn lemma_body_tags_ok()
    ensures
        tag_base_ok("basic_info") && !("basic_info"@[0] == 'a' && "basic_info"@[1] == 'n'),
        tag_base_ok("name") && !("name"@[0] == 'a' && "name"@[1] == 'n'),
        tag_base_ok("gender") && !("gender"@[0] == 'a' && "gender"@[1] == 'n'),
        tag_base_ok("age") && !("age"@[0] == 'a' && "age"@[1] == 'n'),
        tag_base_ok("phone") && !("phone"@[0] == 'a' && "phone"@[1] == 'n'),
        tag_base_ok("email") && !("email"@[0] == 'a' && "email"@[1] == 'n'),
        tag_base_ok("location") && !("location"@[0] == 'a' && "location"@[1] == 'n'),
        tag_base_ok("work_years") && !("work_years"@[0] == 'a' && "work_years"@[1] == 'n'),
        tag_base_ok("degree") && !("degree"@[0] == 'a' && "degree"@[1] == 'n'),
        tag_base_ok("major") && !("major"@[0] == 'a' && "major"@[1] == 'n'),
        tag_base_ok("school") && !("school"@[0] == 'a' && "school"@[1] == 'n'),
        tag_base_ok("current_company") && !("current_company"@[0] == 'a'
            && "current_company"@[1] == 'n'),
        tag_base_ok("current_position") && !("current_position"@[0] == 'a'
            && "current_position"@[1] == 'n'),
        tag_base_ok("score") && !("score"@[0] == 'a' && "score"@[1] == 'n'),
        tag_base_ok("summary") && !("summary"@[0] == 'a' && "summary"@[1] == 'n'),
        tag_base_ok("skills") && !("skills"@[0] == 'a' && "skills"@[1] == 'n'),
        tag_base_ok("level") && !("level"@[0] == 'a' && "level"@[1] == 'n'),
        tag_base_ok("details") && !("details"@[0] == 'a' && "details"@[1] == 'n'),
        tag_base_ok("experience") && !("experience"@[0] == 'a' && "experience"@[1] == 'n'),
        tag_base_ok("strengths") && !("strengths"@[0] == 'a' && "strengths"@[1] == 'n'),
        tag_base_ok("concerns") && !("concerns"@[0] == 'a' && "concerns"@[1] == 'n'),
        tag_base_ok("focus") && !("focus"@[0] == 'a' && "focus"@[1] == 'n'),
        tag_base_ok("analysis"),
{
    reveal_strlit("basic_info");
    reveal_strlit("name");
    reveal_strlit("gender");
    reveal_strlit("age");
    reveal_strlit("phone");
    reveal_strlit("email");
    reveal_strlit("location");
    reveal_strlit("work_years");
    reveal_strlit("degree");
    reveal_strlit("major");
    reveal_strlit("school");
    reveal_strlit("current_company");
    reveal_strlit("current_position");
    reveal_strlit("score");
    reveal_strlit("summary");
    reveal_strlit("skills");
    reveal_strlit("level");
    reveal_strlit("details");
    reveal_strlit("experience");
    reveal_strlit("strengths");
    reveal_strlit("concerns");
    reveal_strlit("focus");
    reveal_strlit("analysis");
}

/// Decimal digits are clean text.
proof fn lemma_digits_clean(s: Seq<char>)
    requires
        crate::text::all_digits(s),
    ensures
        clean_text(s),
        no_char(s, '<'),
{
    assert forall|k: int| 0 <= k < s.len() implies s[k] != '<' && s[k] != '`' by {
        assert(crate::text::is_digit(s[k]));
    }
}

/// The basic-info element of a clean analysis is a safe segment.
proof fn lemma_basic_safe(b: BasicInfoV)
    requires
        clean_text(b.name),
        clean_text(b.gender),
        clean_text(b.age),
        clean_text(b.phone),
        clean_text(b.email),
        clean_text(b.location),
        clean_text(b.work_years),
        clean_text(b.degree),
        clean_text(b.major),
        clean_text(b.school),
        clean_text(b.current_company),
        clean_text(b.current_position),
    ensures
        seg_safe(basic_wire(b)),
        no_char(basic_wire(b), '`'),
{
    lemma_body_tags_ok();
    lemma_otag_safe("basic_info");
    lemma_ctag_safe("basic_info");
    lemma_leaf_safe("name", b.name);
    lemma_leaf_safe("gender", b.gender);
    lemma_leaf_safe("age", b.age);
    lemma_leaf_safe("phone", b.phone);
    lemma_leaf_safe("email", b.email);
    lemma_leaf_safe("location", b.location);
    lemma_leaf_safe("work_years", b.work_years);
    lemma_leaf_safe("degree", b.degree);
    lemma_leaf_safe("major", b.major);
    lemma_leaf_safe("school", b.school);
    lemma_leaf_safe("current_company", b.current_company);
    lemma_leaf_safe("current_position", b.current_position);
    let p0 = otag("basic_info");
    let p1 = p0 + leaf_wire("name", b.name);
    let p2 = p1 + leaf_wire("gender", b.gender);
    let p3 = p2 + leaf_wire("age", b.age);
    let p4 = p3 + leaf_wire("phone", b.phone);
    let p5 = p4 + leaf_wire("email", b.email);
    let p6 = p5 + leaf_wire("location", b.location);
    let p7 = p6 + leaf_wire("work_years", b.work_years);
    let p8 = p7 + leaf_wire("degree", b.degree);
    let p9 = p8 + leaf_wire("major", b.major);
    let p10 = p9 + leaf_wire("school", b.school);
    let p11 = p10 + leaf_wire("current_company", b.current_company);
    let p12 = p11 + leaf_wire("current_position", b.current_position);
    lemma_seg_safe_concat(p0, leaf_wire("name", b.name));
    lemma_seg_safe_concat(p1, leaf_wire("gender", b.gender));
    lemma_seg_safe_concat(p2, leaf_wire("age", b.age));
    lemma_seg_safe_concat(p3, leaf_wire("phone", b.phone));
    lemma_seg_safe_concat(p4, leaf_wire("email", b.email));
    lemma_seg_safe_concat(p5, leaf_wire("location", b.location));
    lemma_seg_safe_concat(p6, leaf_wire("work_years", b.work_years));
    lemma_seg_safe_concat(p7, leaf_wire("degree", b.degree));
    lemma_seg_safe_concat(p8, leaf_wire("major", b.major));
    lemma_seg_safe_concat(p9, leaf_wire("school", b.school));
    lemma_seg_safe_concat(p10, leaf_wire("current_company", b.current_company));
    lemma_seg_safe_concat(p11, leaf_wire("current_position", b.current_position));
    lemma_seg_safe_concat(p12, ctag("basic_info"));
    lemma_no_bt_concat(p0, leaf_wire("name", b.name));
    lemma_no_bt_concat(p1, leaf_wire("gender", b.gender));
    lemma_no_bt_concat(p2, leaf_wire("age", b.age));
    lemma_no_bt_concat(p3, leaf_wire("phone", b.phone));
    lemma_no_bt_concat(p4, leaf_wire("email", b.email));
    lemma_no_bt_concat(p5, leaf_wire("location", b.location));
    lemma_no_bt_concat(p6, leaf_wire("work_years", b.work_years));
    lemma_no_bt_concat(p7, leaf_wire("degree", b.degree));
    lemma_no_bt_concat(p8, leaf_wire("major", b.major));
    lemma_no_bt_concat(p9, leaf_wire("school", b.school));
    lemma_no_bt_concat(p10, leaf_wire("current_company", b.current_company));
    lemma_no_bt_concat(p11, leaf_wire("current_position", b.current_position));
    lemma_no_bt_concat(p12, ctag("basic_info"));
}

/// The wire form of a clean analysis is itself a plain analysis element, so
/// selection leaves it whole.
#[verifier::rlimit(100)]
proof fn lemma_wire_plain(v: AnalysisV)
    requires
        wire_clean(v),
    ensures
        plain_element(wire_of(v)),
{
    reveal_strlit("<analysis>");
    reveal_strlit("</analysis>");
    reveal_strlit("```");
    reveal_strlit("analysis");
    lemma_body_tags_ok();
    let u = wire_of(v);
    let c1 = otag("analysis");
    let c2 = basic_wire(v.basic_info);
    let c3 = leaf_wire("score", crate::text::dec_rep(v.score as int));
    let c4 = leaf_wire("summary", v.summary);
    let c5 = pair_wire("skills", v.skills);
    let c6 = pair_wire("experience", v.experience);
    let c7 = list_wire("strengths", v.strengths);
    let c8 = list_wire("concerns", v.concerns);
    let c9 = list_wire("focus", v.focus);
    let c10 = ctag("analysis");
    let p = c1 + c2 + c3 + c4 + c5 + c6 + c7 + c8 + c9;
    assert(u == p + c10);
    // The prefix before the closing tag is a safe segment without backticks.
    lemma_otag_safe("analysis");
    lemma_basic_safe(v.basic_info);
    crate::text::lemma_dec_rep(v.score as int);
    lemma_digits_clean(crate::text::dec_rep(v.score as int));
    lemma_leaf_safe("score", crate::text::dec_rep(v.score as int));
    lemma_leaf_safe("summary", v.summary);
    lemma_pair_safe("skills", v.skills);
    lemma_pair_safe("experience", v.experience);
    lemma_list_safe("strengths", v.strengths);
    lemma_list_safe("concerns", v.concerns);
    lemma_list_safe("focus", v.focus);
    lemma_seg_safe_concat(c1, c2);
    lemma_seg_safe_concat(c1 + c2, c3);
    lemma_seg_safe_concat(c1 + c2 + c3, c4);
    lemma_seg_safe_concat(c1 + c2 + c3 + c4, c5);
    lemma_seg_safe_concat(c1 + c2 + c3 + c4 + c5, c6);
    lemma_seg_safe_concat(c1 + c2 + c3 + c4 + c5 + c6, c7);
    lemma_seg_safe_concat(c1 + c2 + c3 + c4 + c5 + c6 + c7, c8);
    lemma_seg_safe_concat(c1 + c2 + c3 + c4 + c5 + c6 + c7 + c8, c9);
    lemma_no_bt_concat(c1, c2);
    lemma_no_bt_concat(c1 + c2, c3);
    lemma_no_bt_concat(c1 + c2 + c3, c4);
    lemma_no_bt_concat(c1 + c2 + c3 + c4, c5);
    lemma_no_bt_concat(c1 + c2 + c3 + c4 + c5, c6);
    lemma_no_bt_concat(c1 + c2 + c3 + c4 + c5 + c6, c7);
    lemma_no_bt_concat(c1 + c2 + c3 + c4 + c5 + c6 + c7, c8);
    lemma_no_bt_concat(c1 + c2 + c3 + c4 + c5 + c6 + c7 + c8, c9);
    assert forall|k: int| 0 <= k < c10.len() implies c10[k] != '`' by {
        if 2 <= k < c10.len() - 1 {
            assert(c10[k] == "analysis"@[k - 2]);
        }
    }
    lemma_no_bt_concat(p, c10);
    // No code fence: the wire has no backtick at all.
    assert forall|k: int| !match_at(u, plain_fence(), k) by {
        if match_at(u, plain_fence(), k) {
            lemma_match_at_char(u, plain_fence(), k);
            assert(u[k] == plain_fence()[0]);
            assert(u[k] == '`');
        }
    }
    crate::text::lemma_find_from_none_char(u, plain_fence(), 0);
    // The start tag stands at the very beginning.
    assert(u.subrange(0, u.len() as int) =~= u);
    lemma_split_concat(u, 0, p, c10);
    lemma_split_concat(u, 0, c1 + c2 + c3 + c4 + c5 + c6 + c7 + c8, c9);
    lemma_split_concat(u, 0, c1 + c2 + c3 + c4 + c5 + c6 + c7, c8);
    lemma_split_concat(u, 0, c1 + c2 + c3 + c4 + c5 + c6, c7);
    lemma_split_concat(u, 0, c1 + c2 + c3 + c4 + c5, c6);
    lemma_split_concat(u, 0, c1 + c2 + c3 + c4, c5);
    lemma_split_concat(u, 0, c1 + c2 + c3, c4);
    lemma_split_concat(u, 0, c1 + c2, c3);
    lemma_split_concat(u, 0, c1, c2);
    assert(c1 =~= analysis_open());
    assert(match_at(u, analysis_open(), 0));
    // The closing tag first occurs at the very end.
    assert(c10 =~= analysis_close());
    assert(u.subrange(p.len() as int, u.len() as int) == c10);
    assert(match_at(u, analysis_close(), p.len() as int));
    assert(analysis_close().subrange(0, 4) =~= close_head());
    assert forall|k: int| 0 <= k < p.len() implies !match_at(u, analysis_close(), k) by {
        if match_at(u, analysis_close(), k) {
            lemma_match_at_prefix(u, analysis_close(), 4, k);
            assert(match_at(u, close_head(), k));
            lemma_match_at_char(u, close_head(), k);
            if k + 4 <= p.len() {
                lemma_match_at_char(p, close_head(), k);
                assert(u.subrange(0, p.len() as int)[k] == u[k]);
                assert(u.subrange(0, p.len() as int)[k + 1] == u[k + 1]);
                assert(u.subrange(0, p.len() as int)[k + 2] == u[k + 2]);
                assert(u.subrange(0, p.len() as int)[k + 3] == u[k + 3]);
                assert(p[k] == u[k] && p[k + 1] == u[k + 1] && p[k + 2] == u[k + 2] && p[k + 3]
                    == u[k + 3]);
                assert(match_at(p, close_head(), k));
            } else {
                assert(u.subrange(0, p.len() as int)[k] == u[k]);
                assert(p[k] == u[k]);
                assert(u[k] == '<');
                assert(p.len() - 3 <= k);
            }
        }
    }
    crate::text::lemma_find_from_some_char(u, analysis_close(), 0, p.len() as int);
    assert(c10.len() == 11);
    assert(find_from(u, analysis_close(), 0) == Some(u.len() - 11));
}

/// Where each chunk of the wire form stands.
#[verifier::rlimit(100)]
proof fn lemma_wire_chunks(v: AnalysisV)
    ensures
        ({
            let u = wire_of(v);
            let c1 = otag("analysis");
            let c2 = basic_wire(v.basic_info);
            let c3 = leaf_wire("score", crate::text::dec_rep(v.score as int));
            let c4 = leaf_wire("summary", v.summary);
            let c5 = pair_wire("skills", v.skills);
            let c6 = pair_wire("experience", v.experience);
            let c7 = list_wire("strengths", v.strengths);
            let c8 = list_wire("concerns", v.concerns);
            let c9 = list_wire("focus", v.focus);
            let c10 = ctag("analysis");
            let i0 = c1.len() as int;
            let i1 = i0 + c2.len() as int;
            let i2 = i1 + c3.len() as int;
            let i3 = i2 + c4.len() as int;
            let i4 = i3 + c5.len() as int;
            let i5 = i4 + c6.len() as int;
            let i6 = i5 + c7.len() as int;
            let i7 = i6 + c8.len() as int;
            let i8 = i7 + c9.len() as int;
            &&& u.len() == i8 + c10.len()
            &&& u.subrange(0, i0) == c1
            &&& u.subrange(i0, i1) == c2
            &&& u.subrange(i1, i2) == c3
            &&& u.subrange(i2, i3) == c4
            &&& u.subrange(i3, i4) == c5
            &&& u.subrange(i4, i5) == c6
            &&& u.subrange(i5, i6) == c7
            &&& u.subrange(i6, i7) == c8
            &&& u.subrange(i7, i8) == c9
            &&& u.subrange(i8, u.len() as int) == c10
        }),
{
    let u = wire_of(v);
    let c1 = otag("analysis");
    let c2 = basic_wire(v.basic_info);
    let c3 = leaf_wire("score", crate::text::dec_rep(v.score as int));
    let c4 = leaf_wire("summary", v.summary);
    let c5 = pair_wire("skills", v.skills);
    let c6 = pair_wire("experience", v.experience);
    let c7 = list_wire("strengths", v.strengths);
    let c8 = list_wire("concerns", v.concerns);
    let c9 = list_wire("focus", v.focus);
    let c10 = ctag("analysis");
    let p = c1 + c2 + c3 + c4 + c5 + c6 + c7 + c8 + c9;
    assert(u == p + c10);
    assert(u.subrange(0, u.len() as int) =~= u);
    lemma_split_concat(u, 0, p, c10);
    lemma_split_concat(u, 0, c1 + c2 + c3 + c4 + c5 + c6 + c7 + c8, c9);
    lemma_split_concat(u, 0, c1 + c2 + c3 + c4 + c5 + c6 + c7, c8);
    lemma_split_concat(u, 0, c1 + c2 + c3 + c4 + c5 + c6, c7);
    lemma_split_concat(u, 0, c1 + c2 + c3 + c4 + c5, c6);
    lemma_split_concat(u, 0, c1 + c2 + c3 + c4, c5);
    lemma_split_concat(u, 0, c1 + c2 + c3, c4);
    lemma_split_concat(u, 0, c1 + c2, c3);
    lemma_split_concat(u, 0, c1, c2);
}

/// Chaining successful parses of every part parses the whole.
proof fn lemma_assemble(
    u: Seq<char>,
    v: AnalysisV,
    i0: int,
    i1: int,
    i2: int,
    i3: int,
    i4: int,
    i5: int,
    i6: int,
    i7: int,
    i8: int,
)
    requires
        p_lit(u, 0, otag("analysis")) == Some(i0),
        p_basic_info(u, i0) == Some((v.basic_info, i1)),
        p_leaf(u, i1, "score") == Some((crate::text::dec_rep(v.score as int), i2)),
        parse_u32_seq(crate::text::dec_rep(v.score as int)) == Some(v.score),
        p_leaf(u, i2, "summary") == Some((v.summary, i3)),
        p_pair(u, i3, "skills") == Some((v.skills, i4)),
        p_pair(u, i4, "experience") == Some((v.experience, i5)),
        p_list(u, i5, "strengths") == Some((v.strengths, i6)),
        p_list(u, i6, "concerns") == Some((v.concerns, i7)),
        p_list(u, i7, "focus") == Some((v.focus, i8)),
        p_lit(u, i8, ctag("analysis")) == Some(u.len() as int),
        skip_ws_from(u, u.len() as int) == u.len(),
    ensures
        p_analysis(u) == Some(v),
{
}

/// The front of the wire form parses as the analysis's front fields.
#[verifier::rlimit(100)]
proof fn lemma_wire_parse_front(v: AnalysisV)
    requires
        wire_clean(v),
    ensures
        ({
            let u = wire_of(v);
            let c1 = otag("analysis");
            let c2 = basic_wire(v.basic_info);
            let c3 = leaf_wire("score", crate::text::dec_rep(v.score as int));
            let c4 = leaf_wire("summary", v.summary);
            let c5 = pair_wire("skills", v.skills);
            let c6 = pair_wire("experience", v.experience);
            let c7 = list_wire("strengths", v.strengths);
            let c8 = list_wire("concerns", v.concerns);
            let c9 = list_wire("focus", v.focus);
            let c10 = ctag("analysis");
            let i0 = c1.len() as int;
            let i1 = i0 + c2.len() as int;
            let i2 = i1 + c3.len() as int;
            let i3 = i2 + c4.len() as int;
            let i4 = i3 + c5.len() as int;
            let i5 = i4 + c6.len() as int;
            let i6 = i5 + c7.len() as int;
            let i7 = i6 + c8.len() as int;
            let i8 = i7 + c9.len() as int;
            &&& p_lit(u, 0, otag("analysis")) == Some(i0)
            &&& p_basic_info(u, i0) == Some((v.basic_info, i1))
            &&& p_leaf(u, i1, "score") == Some((crate::text::dec_rep(v.score as int), i2))
            &&& parse_u32_seq(crate::text::dec_rep(v.score as int)) == Some(v.score)
            &&& p_leaf(u, i2, "summary") == Some((v.summary, i3))
        }),
{
    reveal_strlit("analysis");
    lemma_wire_chunks(v);
    let u = wire_of(v);
    let c1 = otag("analysis");
    let c2 = basic_wire(v.basic_info);
    let c3 = leaf_wire("score", crate::text::dec_rep(v.score as int));
    let c4 = leaf_wire("summary", v.summary);
    let c5 = pair_wire("skills", v.skills);
    let c6 = pair_wire("experience", v.experience);
    let c7 = list_wire("strengths", v.strengths);
    let c8 = list_wire("concerns", v.concerns);
    let c9 = list_wire("focus", v.focus);
    let c10 = ctag("analysis");
    let i0 = c1.len() as int;
    let i1 = i0 + c2.len() as int;
    let i2 = i1 + c3.len() as int;
    let i3 = i2 + c4.len() as int;
    let i4 = i3 + c5.len() as int;
    let i5 = i4 + c6.len() as int;
    let i6 = i5 + c7.len() as int;
    let i7 = i6 + c8.len() as int;
    let i8 = i7 + c9.len() as int;
    lemma_walk_lit(u, 0, c1);
    lemma_walk_basic(u, i0, v.basic_info);
    crate::text::lemma_dec_rep(v.score as int);
    lemma_digits_clean(crate::text::dec_rep(v.score as int));
    lemma_walk_leaf(u, i1, "score", crate::text::dec_rep(v.score as int));
    assert forall|m: int| 0 <= m < v.summary.len() implies v.summary[m] != '<' by {}
    lemma_walk_leaf(u, i2, "summary", v.summary);
}

/// The two judgment pairs of the wire form parse as the analysis's pairs.
#[verifier::rlimit(100)]
proof fn lemma_wire_parse_pairs(v: AnalysisV)
    requires
        wire_clean(v),
    ensures
        ({
            let u = wire_of(v);
            let c1 = otag("analysis");
            let c2 = basic_wire(v.basic_info);
            let c3 = leaf_wire("score", crate::text::dec_rep(v.score as int));
            let c4 = leaf_wire("summary", v.summary);
            let c5 = pair_wire("skills", v.skills);
            let c6 = pair_wire("experience", v.experience);
            let c7 = list_wire("strengths", v.strengths);
            let c8 = list_wire("concerns", v.concerns);
            let c9 = list_wire("focus", v.focus);
            let c10 = ctag("analysis");
            let i0 = c1.len() as int;
            let i1 = i0 + c2.len() as int;
            let i2 = i1 + c3.len() as int;
            let i3 = i2 + c4.len() as int;
            let i4 = i3 + c5.len() as int;
            let i5 = i4 + c6.len() as int;
            let i6 = i5 + c7.len() as int;
            let i7 = i6 + c8.len() as int;
            let i8 = i7 + c9.len() as int;
            &&& p_pair(u, i3, "skills") == Some((v.skills, i4))
            &&& p_pair(u, i4, "experience") == Some((v.experience, i5))
        }),
{
    lemma_wire_chunks(v);
    let u = wire_of(v);
    let c1 = otag("analysis");
    let c2 = basic_wire(v.basic_info);
    let c3 = leaf_wire("score", crate::text::dec_rep(v.score as int));
    let c4 = leaf_wire("summary", v.summary);
    let c5 = pair_wire("skills", v.skills);
    let c6 = pair_wire("experience", v.experience);
    let c7 = list_wire("strengths", v.strengths);
    let c8 = list_wire("concerns", v.concerns);
    let c9 = list_wire("focus", v.focus);
    let c10 = ctag("analysis");
    let i0 = c1.len() as int;
    let i1 = i0 + c2.len() as int;
    let i2 = i1 + c3.len() as int;
    let i3 = i2 + c4.len() as int;
    let i4 = i3 + c5.len() as int;
    let i5 = i4 + c6.len() as int;
    let i6 = i5 + c7.len() as int;
    let i7 = i6 + c8.len() as int;
    let i8 = i7 + c9.len() as int;
    lemma_walk_pair(u, i3, "skills", v.skills);
    lemma_walk_pair(u, i4, "experience", v.experience);
}

/// The three lists and the closing tag of the wire form parse as the
/// analysis's lists, ending at the very end.
#[verifier::rlimit(100)]
proof fn lemma_wire_parse_lists(v: AnalysisV)
    requires
        wire_clean(v),
    ensures
        ({
            let u = wire_of(v);
            let c1 = otag("analysis");
            let c2 = basic_wire(v.basic_info);
            let c3 = leaf_wire("score", crate::text::dec_rep(v.score as int));
            let c4 = leaf_wire("summary", v.summary);
            let c5 = pair_wire("skills", v.skills);
            let c6 = pair_wire("experience", v.experience);
            let c7 = list_wire("strengths", v.strengths);
            let c8 = list_wire("concerns", v.concerns);
            let c9 = list_wire("focus", v.focus);
            let c10 = ctag("analysis");
            let i0 = c1.len() as int;
            let i1 = i0 + c2.len() as int;
            let i2 = i1 + c3.len() as int;
            let i3 = i2 + c4.len() as int;
            let i4 = i3 + c5.len() as int;
            let i5 = i4 + c6.len() as int;
            let i6 = i5 + c7.len() as int;
            let i7 = i6 + c8.len() as int;
            let i8 = i7 + c9.len() as int;
            &&& p_list(u, i5, "strengths") == Some((v.strengths, i6))
            &&& p_list(u, i6, "concerns") == Some((v.concerns, i7))
            &&& p_list(u, i7, "focus") == Some((v.focus, i8))
            &&& p_lit(u, i8, ctag("analysis")) == Some(u.len() as int)
            &&& skip_ws_from(u, u.len() as int) == u.len()
        }),
{
    reveal_strlit("strengths");
    reveal_strlit("concerns");
    reveal_strlit("focus");
    lemma_wire_chunks(v);
    let u = wire_of(v);
    let c1 = otag("analysis");
    let c2 = basic_wire(v.basic_info);
    let c3 = leaf_wire("score", crate::text::dec_rep(v.score as int));
    let c4 = leaf_wire("summary", v.summary);
    let c5 = pair_wire("skills", v.skills);
    let c6 = pair_wire("experience", v.experience);
    let c7 = list_wire("strengths", v.strengths);
    let c8 = list_wire("concerns", v.concerns);
    let c9 = list_wire("focus", v.focus);
    let c10 = ctag("analysis");
    let i0 = c1.len() as int;
    let i1 = i0 + c2.len() as int;
    let i2 = i1 + c3.len() as int;
    let i3 = i2 + c4.len() as int;
    let i4 = i3 + c5.len() as int;
    let i5 = i4 + c6.len() as int;
    let i6 = i5 + c7.len() as int;
    let i7 = i6 + c8.len() as int;
    let i8 = i7 + c9.len() as int;
    lemma_walk_list(u, i5, "strengths", v.strengths);
    lemma_walk_list(u, i6, "concerns", v.concerns);
    lemma_walk_list(u, i7, "focus", v.focus);
    lemma_walk_lit(u, i8, c10);
    assert(skip_ws_from(u, u.len() as int) == u.len());
}

/// Walking the parser over the wire form of a clean analysis recovers it.
proof fn lemma_wire_parse(v: AnalysisV)
    requires
        wire_clean(v),
    ensures
        p_analysis(wire_of(v)) == Some(v),
{
    lemma_wire_parse_front(v);
    lemma_wire_parse_pairs(v);
    lemma_wire_parse_lists(v);
    let u = wire_of(v);
    let c1 = otag("analysis");
    let c2 = basic_wire(v.basic_info);
    let c3 = leaf_wire("score", crate::text::dec_rep(v.score as int));
    let c4 = leaf_wire("summary", v.summary);
    let c5 = pair_wire("skills", v.skills);
    let c6 = pair_wire("experience", v.experience);
    let c7 = list_wire("strengths", v.strengths);
    let c8 = list_wire("concerns", v.concerns);
    let c9 = list_wire("focus", v.focus);
    let c10 = ctag("analysis");
    let i0 = c1.len() as int;
    let i1 = i0 + c2.len() as int;
    let i2 = i1 + c3.len() as int;
    let i3 = i2 + c4.len() as int;
    let i4 = i3 + c5.len() as int;
    let i5 = i4 + c6.len() as int;
    let i6 = i5 + c7.len() as int;
    let i7 = i6 + c8.len() as int;
    let i8 = i7 + c9.len() as int;
    lemma_assemble(u, v, i0, i1, i2, i3, i4, i5, i6, i7, i8);
}

/// Round trip: a clean analysis serialized to the wire schema and extracted
/// back is recovered exactly, empty lists included. A field holding markup —
/// a summary containing the text of its own end tag, say — is the one kind of
/// input this cannot promise, since the wire form cannot quote it.
pub proof fn lemma_wire_round_trip(v: AnalysisV)
    requires
        wire_clean(v),
    ensures
        extract_spec(wire_of(v)) == Some(v),
{
    lemma_wire_plain(v);
    lemma_select_plain(wire_of(v));
    lemma_wire_parse(v);
}

// ------------------------------------------------------------------
// Extractor robustness: the wrapping style does not matter
// ------------------------------------------------------------------

/// A plain analysis element: it begins with the start tag, its first end tag
/// closes it at the very end, and it holds no code fence.
pub open spec fn plain_element(c: Seq<char>) -> bool {
    &&& match_at(c, analysis_open(), 0)
    &&& find_from(c, analysis_close(), 0) == Some(c.len() - 11)
    &&& find_from(c, plain_fence(), 0) is None
}

/// Character-level consequences of being a plain analysis element.
proof fn lemma_plain_facts(c: Seq<char>)
    requires
        plain_element(c),
    ensures
        c.len() >= 11,
        c[0] == '<',
        c[c.len() - 1] == '>',
        forall|k: int| !match_at(c, plain_fence(), k),
        forall|k: int| !match_at(c, lang_fence(), k),
{
    reveal_strlit("<analysis>");
    reveal_strlit("</analysis>");
    reveal_strlit("```");
    reveal_strlit("```xml");
    crate::text::lemma_find_from(c, analysis_close(), 0);
    assert(match_at(c, analysis_close(), c.len() - 11));
    lemma_match_at_char(c, analysis_close(), c.len() - 11);
    assert(c[c.len() - 11 + 10] == analysis_close()[10]);
    lemma_match_at_char(c, analysis_open(), 0);
    assert(c[0] == analysis_open()[0]);
    crate::text::lemma_find_from(c, plain_fence(), 0);
    assert forall|k: int| !match_at(c, plain_fence(), k) by {
        if match_at(c, plain_fence(), k) {
            assert(k >= 0);
        }
    }
    assert forall|k: int| !match_at(c, lang_fence(), k) by {
        if match_at(c, lang_fence(), k) {
            lemma_match_at_prefix(c, lang_fence(), 3, k);
            assert(lang_fence().subrange(0, 3) =~= plain_fence());
        }
    }
}

/// Trimming and tag slicing leave a plain analysis element alone.
proof fn lemma_trim_tag(c: Seq<char>)
    requires
        plain_element(c),
    ensures
        trim_seq(c) == c,
        tag_slice(c) == c,
{
    reveal_strlit("<analysis>");
    reveal_strlit("</analysis>");
    lemma_plain_facts(c);
    assert(!is_ws(c[0]));
    assert(skip_ws_from(c, 0) == 0);
    assert(!is_ws(c[c.len() - 1]));
    assert(crate::text::rskip_ws_from(c, c.len() as int) == c.len());
    assert(trim_seq(c) =~= c);
    crate::text::lemma_find_from_some_char(c, analysis_open(), 0, 0);
    assert(analysis_close().len() == 11);
    assert(tag_slice(c) == c.subrange(0, c.len() as int));
    assert(c.subrange(0, c.len() as int) =~= c);
}

/// A bare plain element selects as itself.
proof fn lemma_select_plain(c: Seq<char>)
    requires
        plain_element(c),
    ensures
        select_block(c) == c,
{
    lemma_plain_facts(c);
    crate::text::lemma_find_from_none_char(c, lang_fence(), 0);
    assert(fence_body(c) == c);
    lemma_trim_tag(c);
}

/// A plain element inside a bare code fence selects as the element alone.
proof fn lemma_select_fenced(c: Seq<char>)
    requires
        plain_element(c),
    ensures
        select_block(plain_fence() + c + plain_fence()) == c,
{
    reveal_strlit("```");
    reveal_strlit("```xml");
    reveal_strlit("<analysis>");
    reveal_strlit("</analysis>");
    lemma_plain_facts(c);
    let f = plain_fence();
    let r = f + c + f;
    let n = c.len() as int;
    assert(r.len() == n + 6);
    assert(c[0] == '<' && c[n - 1] == '>');
    assert forall|i: int| 0 <= i < n implies #[trigger] r[3 + i] == c[i] by {}
    assert(r[0] == '`' && r[1] == '`' && r[2] == '`');
    assert(r[3 + n] == '`' && r[4 + n] == '`' && r[5 + n] == '`');
    assert forall|k: int| #[trigger] match_at(r, f, k) implies (k == 0 || k == 3 + n) by {
        if k != 0 && k != 3 + n {
            lemma_match_at_char(r, f, k);
            assert(r[k] == f[0] && r[k + 1] == f[1] && r[k + 2] == f[2]);
            if k == 1 || k == 2 {
                assert(r[3] == c[0]);
            } else if 3 <= k && k + 3 <= 3 + n {
                lemma_match_transfer(r, c, 3, f, k);
                assert(match_at(c, f, k - 3));
            } else if k == n + 1 {
                assert(r[n + 2] == c[n - 1]);
            } else {
                assert(k == n + 2);
                assert(r[n + 2] == c[n - 1]);
            }
        }
    }
    assert forall|k: int| !match_at(r, lang_fence(), k) by {
        if match_at(r, lang_fence(), k) {
            lemma_match_at_prefix(r, lang_fence(), 3, k);
            assert(lang_fence().subrange(0, 3) =~= f);
            assert(match_at(r, f, k));
            lemma_match_at_char(r, lang_fence(), k);
            if k == 0 {
                assert(r[3int] == lang_fence()[3]);
                assert(r[3] == c[0]);
            }
        }
    }
    crate::text::lemma_find_from_none_char(r, lang_fence(), 0);
    assert(match_at(r, f, 0)) by {
        lemma_match_at_char(r, f, 0);
    }
    crate::text::lemma_find_from_some_char(r, f, 0, 0);
    assert(match_at(r, f, 3 + n)) by {
        lemma_match_at_char(r, f, 3 + n);
    }
    crate::text::lemma_find_from_some_char(r, f, 3, 3 + n);
    assert(fence_body(r) == r.subrange(3, 3 + n));
    assert(r.subrange(3, 3 + n) =~= c);
    lemma_trim_tag(c);
}

/// A plain element inside a language-tagged fence amid prose selects as the
/// element alone.
proof fn lemma_select_lang(c: Seq<char>)
    requires
        plain_element(c),
    ensures
        select_block("blah ```xml "@ + c + " ``` blah"@) == c,
{
    reveal_strlit("```");
    reveal_strlit("```xml");
    reveal_strlit("blah ```xml ");
    reveal_strlit(" ``` blah");
    reveal_strlit("<analysis>");
    reveal_strlit("</analysis>");
    lemma_plain_facts(c);
    let a = "blah ```xml "@;
    let b = " ``` blah"@;
    let f = plain_fence();
    let r = a + c + b;
    let n = c.len() as int;
    assert(a.len() == 12 && b.len() == 9);
    assert(r.len() == n + 21);
    assert(c[0] == '<' && c[n - 1] == '>');
    assert forall|i: int| 0 <= i < n implies #[trigger] r[12 + i] == c[i] by {}
    assert forall|i: int| 0 <= i < 12 implies #[trigger] r[i] == a[i] by {}
    assert forall|i: int| 0 <= i < 9 implies #[trigger] r[12 + n + i] == b[i] by {}
    // The language fence first occurs right where the prose put it.
    assert(match_at(r, lang_fence(), 5)) by {
        lemma_match_at_char(r, lang_fence(), 5);
        assert(r[5] == a[5] && r[6] == a[6] && r[7] == a[7] && r[8] == a[8] && r[9] == a[9]
            && r[10] == a[10]);
    }
    assert forall|k: int| 0 <= k < 5 implies !match_at(r, lang_fence(), k) by {
        if match_at(r, lang_fence(), k) {
            lemma_match_at_char(r, lang_fence(), k);
            assert(r[k] == lang_fence()[0]);
            assert(r[k] == a[k]);
        }
    }
    crate::text::lemma_find_from_some_char(r, lang_fence(), 0, 5);
    // The next bare fence after it opens the trailing prose.
    assert(match_at(r, f, 13 + n)) by {
        lemma_match_at_char(r, f, 13 + n);
        assert(r[13 + n] == b[1] && r[14 + n] == b[2] && r[15 + n] == b[3]);
    }
    assert forall|k: int| 11 <= k < 13 + n implies !match_at(r, f, k) by {
        if match_at(r, f, k) {
            lemma_match_at_char(r, f, k);
            assert(r[k] == f[0] && r[k + 1] == f[1] && r[k + 2] == f[2]);
            if k == 11 {
                assert(r[11] == a[11]);
            } else if 12 <= k && k + 3 <= 12 + n {
                lemma_match_transfer(r, c, 12, f, k);
                assert(match_at(c, f, k - 12));
            } else if k == 10 + n {
                assert(r[11 + n] == c[n - 1]);
            } else if k == 11 + n {
                assert(r[11 + n] == c[n - 1]);
            } else {
                assert(k == 12 + n);
                assert(r[12 + n] == b[0]);
            }
        }
    }
    crate::text::lemma_find_from_some_char(r, f, 11, 13 + n);
    assert(lang_fence().len() == 6);
    assert(fence_body(r) == r.subrange(11, 13 + n));
    let t = r.subrange(11, 13 + n);
    assert(t.len() == n + 2);
    assert(t[0] == a[11]);
    assert(is_ws(t[0]));
    assert forall|i: int| 0 <= i < n implies #[trigger] t[1 + i] == c[i] by {
        assert(t[1 + i] == r[12 + i]);
    }
    assert(t[n + 1] == b[0]);
    assert(is_ws(t[n + 1]));
    assert(!is_ws(t[1]));
    assert(skip_ws_from(t, 0) == skip_ws_from(t, 1));
    assert(skip_ws_from(t, 1) == 1);
    assert(!is_ws(t[n]));
    assert(crate::text::rskip_ws_from(t, n + 2) == crate::text::rskip_ws_from(t, n + 1));
    assert(crate::text::rskip_ws_from(t, n + 1) == n + 1);
    assert(trim_seq(t) == t.subrange(1, n + 1));
    assert(t.subrange(1, n + 1) =~= c);
    lemma_trim_tag(c);
}

/// Extractor robustness: the analysis element parses identically whether it
/// arrives inside a language-tagged code fence amid prose, inside a bare
/// code fence, or on its own.
pub proof fn lemma_extractor_robustness(c: Seq<char>)
    requires
        plain_element(c),
    ensures
        extract_spec("blah ```xml "@ + c + " ``` blah"@) == extract_spec(c),
        extract_spec("```"@ + c + "```"@) == extract_spec(c),
{
    lemma_select_plain(c);
    lemma_select_fenced(c);
    lemma_select_lang(c);
}

/// A language-tagged fence holding the element on its own line selects as
/// the element alone: the fence padding is trimmed away.
proof fn lemma_select_lang_padded(c: Seq<char>)
    requires
        plain_element(c),
    ensures
        select_block("```xml\n"@ + c + "\n```"@) == c,
{
    reveal_strlit("```");
    reveal_strlit("```xml");
    reveal_strlit("```xml\n");
    reveal_strlit("\n```");
    reveal_strlit("<analysis>");
    reveal_strlit("</analysis>");
    lemma_plain_facts(c);
    let a = "```xml\n"@;
    let b = "\n```"@;
    let f = plain_fence();
    let r = a + c + b;
    let n = c.len() as int;
    assert(a.len() == 7 && b.len() == 4);
    assert(r.len() == n + 11);
    assert(c[0] == '<' && c[n - 1] == '>');
    assert forall|i: int| 0 <= i < n implies #[trigger] r[7 + i] == c[i] by {}
    assert forall|i: int| 0 <= i < 7 implies #[trigger] r[i] == a[i] by {}
    assert forall|i: int| 0 <= i < 4 implies #[trigger] r[7 + n + i] == b[i] by {}
    // The language fence first occurs right at the start.
    assert(match_at(r, lang_fence(), 0)) by {
        lemma_match_at_char(r, lang_fence(), 0);
        assert(r[0int] == a[0] && r[1int] == a[1] && r[2int] == a[2] && r[3int] == a[3]
            && r[4int] == a[4] && r[5int] == a[5]);
    }
    crate::text::lemma_find_from_some_char(r, lang_fence(), 0, 0);
    // The next bare fence after it closes the block.
    assert(match_at(r, f, 8 + n)) by {
        lemma_match_at_char(r, f, 8 + n);
        assert(r[8 + n] == b[1] && r[9 + n] == b[2] && r[10 + n] == b[3]);
    }
    assert forall|k: int| 6 <= k < 8 + n implies !match_at(r, f, k) by {
        if match_at(r, f, k) {
            lemma_match_at_char(r, f, k);
            assert(r[k] == f[0] && r[k + 1] == f[1] && r[k + 2] == f[2]);
            if k == 6 {
                assert(r[6int] == a[6]);
            } else if 7 <= k && k + 3 <= 7 + n {
                lemma_match_transfer(r, c, 7, f, k);
                assert(match_at(c, f, k - 7));
            } else if k == 5 + n {
                assert(r[6 + n] == c[n - 1]);
            } else if k == 6 + n {
                assert(r[6 + n] == c[n - 1]);
            } else {
                assert(k == 7 + n);
                assert(r[7 + n] == b[0]);
            }
        }
    }
    crate::text::lemma_find_from_some_char(r, f, 6, 8 + n);
    assert(lang_fence().len() == 6);
    assert(fence_body(r) == r.subrange(6, 8 + n));
    let t = r.subrange(6, 8 + n);
    assert(t.len() == n + 2);
    assert(t[0int] == a[6]);
    assert(is_ws(t[0int]));
    assert forall|i: int| 0 <= i < n implies #[trigger] t[1 + i] == c[i] by {
        assert(t[1 + i] == r[7 + i]);
    }
    assert(t[n + 1] == b[0]);
    assert(is_ws(t[n + 1]));
    assert(!is_ws(t[1int]));
    assert(skip_ws_from(t, 0) == skip_ws_from(t, 1));
    assert(skip_ws_from(t, 1) == 1);
    assert(!is_ws(t[n as int]));
    assert(crate::text::rskip_ws_from(t, n + 2) == crate::text::rskip_ws_from(t, n + 1));
    assert(crate::text::rskip_ws_from(t, n + 1) == n + 1);
    assert(trim_seq(t) == t.subrange(1, n + 1));
    assert(t.subrange(1, n + 1) =~= c);
    lemma_trim_tag(c);
}

/// Extractor robustness also holds of the newline-padded fence style: the
/// element on its own line inside a language-tagged fence parses the same.
pub proof fn lemma_extractor_robustness_padded(c: Seq<char>)
    requires
        plain_element(c),
    ensures
        extract_spec("```xml\n"@ + c + "\n```"@) == extract_spec(c),
{
    lemma_select_plain(c);
    lemma_select_lang_padded(c);
}

// ------------------------------------------------------------------
// The executable extractor, verified against the functions above
// ------------------------------------------------------------------

/// The start tag for `t`, as characters.
fn otag_vec(t: &str) -> (r: Vec<char>)
    ensures
        r@ == otag(t),
{
    let tc = chars_of(t);
    let mut r: Vec<char> = Vec::new();
    r.push('<');
    push_all(&mut r, &tc);
    r.push('>');
    proof {
        assert(r@ =~= otag(t));
    }
    r
}

/// The end tag for `t`, as characters.
fn ctag_vec(t: &str) -> (r: Vec<char>)
    ensures
        r@ == ctag(t),
{
    let tc = chars_of(t);
    let mut r: Vec<char> = Vec::new();
    r.push('<');
    r.push('/');
    push_all(&mut r, &tc);
    r.push('>');
    proof {
        assert(r@ =~= ctag(t));
    }
    r
}

/// Position of the next `<` at or after `i`; exactly `scan_to_lt`.
fn scan_lt(v: &Vec<char>, i: usize) -> (r: usize)
    requires
        i <= v@.len(),
    ensures
        r == scan_to_lt(v@, i as int),
        i <= r <= v@.len(),
{
    let mut j: usize = i;
    while j < v.len() && v[j] != '<'
        invariant
            i <= j <= v@.len(),
            scan_to_lt(v@, i as int) == scan_to_lt(v@, j as int),
        decreases v@.len() - j,
    {
        j += 1;
    }
    j
}

/// Consume whitespace and the literal `p`; exactly `p_lit`.
fn x_lit(v: &Vec<char>, i: usize, p: &Vec<char>) -> (r: Option<usize>)
    requires
        i <= v@.len(),
    ensures
        match r {
            Some(j) => p_lit(v@, i as int, p@) == Some(j as int) && i <= j <= v@.len(),
            None => p_lit(v@, i as int, p@) is None,
        },
{
    let _n: usize = v.len();
    let a = skip_ws(v, i);
    if is_match_at(v, p, a) {
        Some(a + p.len())
    } else {
        None
    }
}

/// Consume a leaf element and hand back its text; exactly `p_leaf`.
fn x_leaf(v: &Vec<char>, s: &str, i: usize, t: &str) -> (r: Option<(String, usize)>)
    requires
        v@ == s@,
        i <= v@.len(),
    ensures
        match r {
            Some(pair) => p_leaf(v@, i as int, t) == Some((pair.0@, pair.1 as int))
                && i < pair.1 <= v@.len(),
            None => p_leaf(v@, i as int, t) is None,
        },
{
    let _n: usize = v.len();
    let ot = otag_vec(t);
    let ct = ctag_vec(t);
    match x_lit(v, i, &ot) {
        Some(a) => {
            let e = scan_lt(v, a);
            if is_match_at(v, &ct, e) {
                let val = s.substring_char(a, e).to_owned();
                Some((val, e + ct.len()))
            } else {
                None
            }
        }
        None => None,
    }
}

/// Consume a run of `<item>` leaves; exactly `p_items`.
fn x_items(v: &Vec<char>, s: &str, start: usize) -> (r: Option<(Vec<String>, usize)>)
    requires
        v@ == s@,
        start <= v@.len(),
    ensures
        match r {
            Some(pair) => p_items(v@, start as int) == Some((pair.0.deep_view(), pair.1 as int))
                && start <= pair.1 <= v@.len(),
            None => p_items(v@, start as int) is None,
        },
{
    let ot = otag_vec("item");
    let mut vals: Vec<String> = Vec::new();
    let mut i: usize = start;
    proof {
        assert(vals.deep_view() =~= Seq::<Seq<char>>::empty());
        match p_items(v@, start as int) {
            Some(rest) => {
                assert(vals.deep_view() + rest.0 =~= rest.0);
            }
            None => {}
        }
    }
    loop
        invariant
            v@ == s@,
            ot@ == otag("item"),
            start <= i <= v@.len(),
            match p_items(v@, i as int) {
                Some(rest) => p_items(v@, start as int)
                    == Some((vals.deep_view() + rest.0, rest.1)),
                None => p_items(v@, start as int) is None,
            },
        decreases v@.len() - i,
    {
        let a = skip_ws(v, i);
        if !is_match_at(v, &ot, a) {
            proof {
                assert(p_items(v@, i as int) == Some((Seq::<Seq<char>>::empty(), i as int)));
                assert(vals.deep_view() + Seq::<Seq<char>>::empty() =~= vals.deep_view());
            }
            return Some((vals, i));
        }
        match x_leaf(v, s, i, "item") {
            Some(pair) => {
                let (val, j) = pair;
                let ghost gv = val@;
                let ghost pv = vals@;
                let ghost prev = vals.deep_view();
                vals.push(val);
                proof {
                    assert forall|k: int| 0 <= k < vals.deep_view().len() implies vals.deep_view()[k]
                        == (prev + seq![gv])[k] by {
                        assert(vals.deep_view()[k] == vals@[k]@);
                        if k < prev.len() {
                            assert(vals@[k] == pv[k]);
                            assert(prev[k] == pv[k]@);
                        } else {
                            assert(vals@[k]@ == gv);
                        }
                    }
                    assert(vals.deep_view() =~= prev + seq![gv]);
                    match p_items(v@, j as int) {
                        Some(rest) => {
                            assert(p_items(v@, i as int)
                                == Some((seq![gv] + rest.0, rest.1)));
                            assert(prev + (seq![gv] + rest.0)
                                =~= (prev + seq![gv]) + rest.0);
                        }
                        None => {
                            assert(p_items(v@, i as int) is None);
                        }
                    }
                }
                i = j;
            }
            None => {
                proof {
                    assert(p_items(v@, i as int) is None);
                }
                return None;
            }
        }
    }
}

/// Consume a list element; exactly `p_list`.
fn x_list(v: &Vec<char>, s: &str, i: usize, t: &str) -> (r: Option<(Vec<String>, usize)>)
    requires
        v@ == s@,
        i <= v@.len(),
    ensures
        match r {
            Some(pair) => p_list(v@, i as int, t) == Some((pair.0.deep_view(), pair.1 as int))
                && i <= pair.1 <= v@.len(),
            None => p_list(v@, i as int, t) is None,
        },
{
    let ot = otag_vec(t);
    let ct = ctag_vec(t);
    match x_lit(v, i, &ot) {
        Some(j) => match x_items(v, s, j) {
            Some(pair) => {
                let (vals, k) = pair;
                match x_lit(v, k, &ct) {
                    Some(m) => Some((vals, m)),
                    None => None,
                }
            }
            None => None,
        },
        None => None,
    }
}

/// Consume a level/details element; exactly `p_pair`.
fn x_pair(v: &Vec<char>, s: &str, i: usize, t: &str) -> (r: Option<(String, String, usize)>)
    requires
        v@ == s@,
        i <= v@.len(),
    ensures
        match r {
            Some(tr) => p_pair(v@, i as int, t)
                == Some((PairV { level: tr.0@, details: tr.1@ }, tr.2 as int))
                && i <= tr.2 <= v@.len(),
            None => p_pair(v@, i as int, t) is None,
        },
{
    let ot = otag_vec(t);
    let ct = ctag_vec(t);
    match x_lit(v, i, &ot) {
        Some(j0) => match x_leaf(v, s, j0, "level") {
            Some(lv) => match x_leaf(v, s, lv.1, "details") {
                Some(dt) => match x_lit(v, dt.1, &ct) {
                    Some(j) => Some((lv.0, dt.0, j)),
                    None => None,
                },
                None => None,
            },
            None => None,
        },
        None => None,
    }
}

/// Consume the `<basic_info>` element; exactly `p_basic_info`.
fn x_basic_info(v: &Vec<char>, s: &str, i: usize) -> (r: Option<(BasicInfo, usize)>)
    requires
        v@ == s@,
        i <= v@.len(),
    ensures
        match r {
            Some(pair) => p_basic_info(v@, i as int) == Some((pair.0@, pair.1 as int))
                && i <= pair.1 <= v@.len(),
            None => p_basic_info(v@, i as int) is None,
        },
{
    let ot = otag_vec("basic_info");
    let ct = ctag_vec("basic_info");
    let j0 = match x_lit(v, i, &ot) {
        Some(x) => x,
        None => {
            return None;
        }
    };
    let f1 = match x_leaf(v, s, j0, "name") {
        Some(x) => x,
        None => {
            return None;
        }
    };
    let f2 = match x_leaf(v, s, f1.1, "gender") {
        Some(x) => x,
        None => {
            return None;
        }
    };
    let f3 = match x_leaf(v, s, f2.1, "age") {
        Some(x) => x,
        None => {
            return None;
        }
    };
    let f4 = match x_leaf(v, s, f3.1, "phone") {
        Some(x) => x,
        None => {
            return None;
        }
    };
    let f5 = match x_leaf(v, s, f4.1, "email") {
        Some(x) => x,
        None => {
            return None;
        }
    };
    let f6 = match x_leaf(v, s, f5.1, "location") {
        Some(x) => x,
        None => {
            return None;
        }
    };
    let f7 = match x_leaf(v, s, f6.1, "work_years") {
        Some(x) => x,
        None => {
            return None;
        }
    };
    let f8 = match x_leaf(v, s, f7.1, "degree") {
        Some(x) => x,
        None => {
            return None;
        }
    };
    let f9 = match x_leaf(v, s, f8.1, "major") {
        Some(x) => x,
        None => {
            return None;
        }
    };
    let f10 = match x_leaf(v, s, f9.1, "school") {
        Some(x) => x,
        None => {
            return None;
        }
    };
    let f11 = match x_leaf(v, s, f10.1, "current_company") {
        Some(x) => x,
        None => {
            return None;
        }
    };
    let f12 = match x_leaf(v, s, f11.1, "current_position") {
        Some(x) => x,
        None => {
            return None;
        }
    };
    let j = match x_lit(v, f12.1, &ct) {
        Some(x) => x,
        None => {
            return None;
        }
    };
    let bi = BasicInfo {
        name: f1.0,
        gender: f2.0,
        age: f3.0,
        phone: f4.0,
        email: f5.0,
        location: f6.0,
        work_years: f7.0,
        degree: f8.0,
        major: f9.0,
        school: f10.0,
        current_company: f11.0,
        current_position: f12.0,
    };
    Some((bi, j))
}

/// Parse a whole selected block; exactly `p_analysis`.
fn x_analysis(v: &Vec<char>, s: &str) -> (r: Option<Analysis>)
    requires
        v@ == s@,
    ensures
        match r {
            Some(an) => p_analysis(v@) == Some(an@),
            None => p_analysis(v@) is None,
        },
{
    let aot = otag_vec("analysis");
    let act = ctag_vec("analysis");
    let i0 = match x_lit(v, 0, &aot) {
        Some(x) => x,
        None => {
            return None;
        }
    };
    let bi = match x_basic_info(v, s, i0) {
        Some(x) => x,
        None => {
            return None;
        }
    };
    let sc = match x_leaf(v, s, bi.1, "score") {
        Some(x) => x,
        None => {
            return None;
        }
    };
    let sv = chars_of(sc.0.as_str());
    let score = match parse_u32_range(&sv, 0, sv.len()) {
        Some(x) => x,
        None => {
            proof {
                assert(sv@.subrange(0, sv@.len() as int) =~= sc.0@);
            }
            return None;
        }
    };
    proof {
        assert(sv@.subrange(0, sv@.len() as int) =~= sc.0@);
    }
    let sm = match x_leaf(v, s, sc.1, "summary") {
        Some(x) => x,
        None => {
            return None;
        }
    };
    let sk = match x_pair(v, s, sm.1, "skills") {
        Some(x) => x,
        None => {
            return None;
        }
    };
    let ex = match x_pair(v, s, sk.2, "experience") {
        Some(x) => x,
        None => {
            return None;
        }
    };
    let st = match x_list(v, s, ex.2, "strengths") {
        Some(x) => x,
        None => {
            return None;
        }
    };
    let co = match x_list(v, s, st.1, "concerns") {
        Some(x) => x,
        None => {
            return None;
        }
    };
    let fo = match x_list(v, s, co.1, "focus") {
        Some(x) => x,
        None => {
            return None;
        }
    };
    let i9 = match x_lit(v, fo.1, &act) {
        Some(x) => x,
        None => {
            return None;
        }
    };
    if skip_ws(v, i9) != v.len() {
        return None;
    }
    Some(
        Analysis {
            basic_info: bi.0,
            score,
            summary: sm.0,
            skills: Skills { level: sk.0, details: sk.1 },
            experience: Experience { level: ex.0, details: ex.1 },
            strengths: st.0,
            concerns: co.0,
            focus: fo.0,
        },
    )
}

/// Appends a start tag.
fn push_otag(out: &mut String, t: &str)
    ensures
        final(out)@ == old(out)@ + otag(t),
{
    out.append("<");
    out.append(t);
    out.append(">");
    proof {
        reveal_strlit("<");
        reveal_strlit(">");
        assert("<"@ =~= seq!['<']);
        assert(">"@ =~= seq!['>']);
        assert(out@ =~= old(out)@ + otag(t));
    }
}

/// Appends an end tag.
fn push_ctag(out: &mut String, t: &str)
    ensures
        final(out)@ == old(out)@ + ctag(t),
{
    out.append("</");
    out.append(t);
    out.append(">");
    proof {
        reveal_strlit("</");
        reveal_strlit(">");
        assert("</"@ =~= seq!['<', '/']);
        assert(">"@ =~= seq!['>']);
        assert(out@ =~= old(out)@ + ctag(t));
    }
}

/// Appends a whole leaf element.
fn push_leaf(out: &mut String, t: &str, v: &str)
    ensures
        final(out)@ == old(out)@ + leaf_wire(t, v@),
{
    push_otag(out, t);
    out.append(v);
    push_ctag(out, t);
    proof {
        assert(out@ =~= old(out)@ + leaf_wire(t, v@));
    }
}

/// Appending one more item extends the run at its end.
proof fn lemma_items_wire_snoc(vs: Seq<Seq<char>>, x: Seq<char>)
    ensures
        items_wire(vs.push(x)) == items_wire(vs) + leaf_wire("item", x),
    decreases vs.len(),
{
    if vs.len() == 0 {
        assert(vs.push(x).first() == x);
        assert(vs.push(x).drop_first() =~= Seq::<Seq<char>>::empty());
        assert(items_wire(vs.push(x).drop_first()) == Seq::<char>::empty());
        assert(items_wire(vs.push(x)) == leaf_wire("item", x) + items_wire(
            vs.push(x).drop_first(),
        ));
        assert(items_wire(vs) == Seq::<char>::empty());
        assert(items_wire(vs.push(x)) =~= items_wire(vs) + leaf_wire("item", x));
    } else {
        assert(vs.push(x).drop_first() =~= vs.drop_first().push(x));
        lemma_items_wire_snoc(vs.drop_first(), x);
        assert(vs.push(x).first() == vs.first());
        assert(items_wire(vs.push(x)) == leaf_wire("item", vs.first()) + items_wire(
            vs.drop_first().push(x),
        ));
        assert(items_wire(vs) == leaf_wire("item", vs.first()) + items_wire(vs.drop_first()));
        assert(items_wire(vs.push(x)) =~= items_wire(vs) + leaf_wire("item", x));
    }
}

/// Appends a whole list element.
fn push_list(out: &mut String, t: &str, vs: &Vec<String>)
    ensures
        final(out)@ == old(out)@ + list_wire(t, vs.deep_view()),
{
    push_otag(out, t);
    let ghost mid = out@;
    let mut i: usize = 0;
    proof {
        assert(out@ =~= mid + items_wire(vs.deep_view().subrange(0, 0)));
    }
    while i < vs.len()
        invariant
            i <= vs@.len(),
            out@ == mid + items_wire(vs.deep_view().subrange(0, i as int)),
            mid == old(out)@ + otag(t),
        decreases vs@.len() - i,
    {
        push_leaf(out, "item", vs[i].as_str());
        i += 1;
        proof {
            let dv = vs.deep_view();
            assert(dv[i - 1] == vs@[i - 1]@);
            assert(dv.subrange(0, i as int) =~= dv.subrange(0, i - 1).push(dv[i - 1]));
            lemma_items_wire_snoc(dv.subrange(0, i - 1), dv[i - 1]);
            assert(out@ =~= mid + items_wire(dv.subrange(0, i as int)));
        }
    }
    proof {
        assert(vs.deep_view().subrange(0, vs@.len() as int) =~= vs.deep_view());
    }
    push_ctag(out, t);
    proof {
        assert(out@ =~= old(out)@ + list_wire(t, vs.deep_view()));
    }
}

/// Serializes an analysis to its wire form: the exact element layout the
/// extractor parses, with no whitespace between elements and leaf text
/// written verbatim, without entity quoting.
#[verifier::rlimit(50)]
pub fn to_wire(a: &Analysis) -> (r: String)
    ensures
        r@ == wire_of(a@),
{
    let mut out = String::new();
    push_otag(&mut out, "analysis");
    push_otag(&mut out, "basic_info");
    push_leaf(&mut out, "name", a.basic_info.name.as_str());
    push_leaf(&mut out, "gender", a.basic_info.gender.as_str());
    push_leaf(&mut out, "age", a.basic_info.age.as_str());
    push_leaf(&mut out, "phone", a.basic_info.phone.as_str());
    push_leaf(&mut out, "email", a.basic_info.email.as_str());
    push_leaf(&mut out, "location", a.basic_info.location.as_str());
    push_leaf(&mut out, "work_years", a.basic_info.work_years.as_str());
    push_leaf(&mut out, "degree", a.basic_info.degree.as_str());
    push_leaf(&mut out, "major", a.basic_info.major.as_str());
    push_leaf(&mut out, "school", a.basic_info.school.as_str());
    push_leaf(&mut out, "current_company", a.basic_info.current_company.as_str());
    push_leaf(&mut out, "current_position", a.basic_info.current_position.as_str());
    push_ctag(&mut out, "basic_info");
    proof {
        assert(out@ =~= otag("analysis") + basic_wire(a.basic_info@));
    }
    let ghost g1 = out@;
    let digits = crate::text::u64_to_string(a.score as u64);
    push_leaf(&mut out, "score", digits.as_str());
    push_leaf(&mut out, "summary", a.summary.as_str());
    proof {
        assert((a.score as u64) as int == a.score as int);
        assert(out@ =~= g1 + leaf_wire("score", crate::text::dec_rep(a.score as int)) + leaf_wire(
            "summary",
            a.summary@,
        ));
    }
    let ghost g2 = out@;
    push_otag(&mut out, "skills");
    push_leaf(&mut out, "level", a.skills.level.as_str());
    push_leaf(&mut out, "details", a.skills.details.as_str());
    push_ctag(&mut out, "skills");
    proof {
        assert(out@ =~= g2 + pair_wire("skills", a.skills@));
    }
    let ghost g3 = out@;
    push_otag(&mut out, "experience");
    push_leaf(&mut out, "level", a.experience.level.as_str());
    push_leaf(&mut out, "details", a.experience.details.as_str());
    push_ctag(&mut out, "experience");
    proof {
        assert(out@ =~= g3 + pair_wire("experience", a.experience@));
    }
    let ghost g4 = out@;
    push_list(&mut out, "strengths", &a.strengths);
    push_list(&mut out, "concerns", &a.concerns);
    push_list(&mut out, "focus", &a.focus);
    push_ctag(&mut out, "analysis");
    proof {
        assert(out@ =~= g4 + list_wire("strengths", a.strengths.deep_view()) + list_wire(
            "concerns",
            a.concerns.deep_view(),
        ) + list_wire("focus", a.focus.deep_view()) + ctag("analysis"));
        assert(out@ =~= wire_of(a@));
    }
    out
}

/// Extracts an `Analysis` from raw model output, tolerating code fences and
/// surrounding prose; on failure the error carries the original text.
#[verifier::rlimit(50)]
pub fn extract(raw: &str) -> (r: Result<Analysis, AppError>)
    ensures
        match r {
            Ok(an) => extract_spec(raw@) == Some(an@),
            Err(e) => extract_spec(raw@) is None
                && (e matches AppError::ParseError(m) && m@ == raw@),
        },
{
    let v = chars_of(raw);
    let n = v.len();
    let fx = chars_of("```xml");
    let f3 = chars_of("```");

    // Step 1 and 2: the body of the first fenced block, if any.
    let fence: (usize, usize) = match find_sub(&v, &fx, 0) {
        Some(j) => {
            proof {
                lemma_find_from(v@, fx@, 0);
            }
            let a = j + fx.len();
            match find_sub(&v, &f3, a) {
                Some(b) => {
                    proof {
                        lemma_find_from(v@, f3@, a as int);
                    }
                    (a, b)
                }
                None => (a, n),
            }
        }
        None => match find_sub(&v, &f3, 0) {
            Some(j) => {
                proof {
                    lemma_find_from(v@, f3@, 0);
                }
                let a = j + f3.len();
                match find_sub(&v, &f3, a) {
                    Some(b) => {
                        proof {
                            lemma_find_from(v@, f3@, a as int);
                        }
                        (a, b)
                    }
                    None => (a, n),
                }
            }
            None => (0, n),
        },
    };
    proof {
        assert(v@.subrange(0, v@.len() as int) =~= v@);
        assert(v@.subrange(fence.0 as int, fence.1 as int) == fence_body(v@));
    }

    // Step 3: trim surrounding whitespace.
    let (ta, tb) = trim_range(&v, fence.0, fence.1);
    let u = copy_range(&v, ta, tb);

    // Step 4: slice to the analysis element when both its tags are present.
    let ao = chars_of("<analysis>");
    let ac = chars_of("</analysis>");
    let block_bounds: (usize, usize) = match find_sub(&u, &ao, 0) {
        Some(st) => match find_sub(&u, &ac, st) {
            Some(en) => {
                proof {
                    lemma_find_from(u@, ac@, st as int);
                }
                (st, en + ac.len())
            }
            None => (0, u.len()),
        },
        None => (0, u.len()),
    };
    proof {
        assert(u@.subrange(0, u@.len() as int) =~= u@);
        assert(u@.subrange(block_bounds.0 as int, block_bounds.1 as int) == tag_slice(u@));
    }

    // Step 5: parse the selected block against the schema.
    let block = copy_range(&u, block_bounds.0, block_bounds.1);
    let bs = raw.substring_char(ta + block_bounds.0, ta + block_bounds.1);
    proof {
        assert(bs@ =~= block@);
        assert(block@ == select_block(raw@));
    }
    match x_analysis(&block, bs) {
        Some(an) => Ok(an),
        None => Err(AppError::ParseError(raw.to_owned())),
    }
}

} // verus!
