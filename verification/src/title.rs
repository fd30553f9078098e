//! Tab-title heuristics: condensing user prompts into a short title, and
//! picking the session transcript the title should come from.
//!
//! Everything here is pure text and record processing; reading transcript
//! files and running the title-generation CLI happen outside the library,
//! which is handed the lines and the raw model output.
use vstd::prelude::*;
use vstd::string::StrSliceExecFns;

use crate::json::JsonModel;
use crate::json::JsonValue;
use crate::json::json_parse;
use crate::json::jv_models;
use crate::json::lemma_jv_models_index;
use crate::json::lemma_jv_models_len;
use crate::json::push_dec;
use crate::json::spec_dec_str;
use crate::text::char_is_control;
use crate::text::char_is_whitespace;
use crate::text::chars_to_string;
use crate::text::contains_sub;
use crate::text::is_ascii_alphanumeric_char;
use crate::text::lemma_trim_ws_len;
use crate::text::push_str_chars;
use crate::text::slice_chars;
use crate::text::spec_ascii_alphanumeric;
use crate::text::spec_ascii_lower_seq;
use crate::text::ascii_lower_chars;
use crate::text::spec_contains_sub;
use crate::text::spec_starts_with;
use crate::text::starts_with_chars;
use crate::text::str_chars;
use crate::text::string_eq_str;
use crate::text::trim_chars;
use crate::text::trim_trailing;
use crate::text::trim_ws;
use crate::text::unicode_control;
use crate::text::unicode_whitespace;

verus! {

/// Characters that collapse into a single space: whitespace and control
/// characters alike.
pub open spec fn space_like(c: char) -> bool {
    unicode_whitespace(c) || unicode_control(c)
}

pub open spec fn collapse_rec(s: Seq<char>, in_ws: bool) -> Seq<char>
    decreases s.len(),
{
    if s.len() == 0 {
        Seq::empty()
    } else if space_like(s[0]) {
        if in_ws {
            collapse_rec(s.drop_first(), true)
        } else {
            seq![' '] + collapse_rec(s.drop_first(), true)
        }
    } else {
        seq![s[0]] + collapse_rec(s.drop_first(), false)
    }
}

/// Whitespace and control runs collapsed to single spaces, with no
/// leading or trailing space.
pub open spec fn spec_collapse_whitespace(s: Seq<char>) -> Seq<char> {
    let t = collapse_rec(s, true);
    if t.len() > 0 && t.last() == ' ' {
        t.drop_last()
    } else {
        t
    }
}

fn collapse_chars(v: &Vec<char>) -> (r: Vec<char>)
    ensures
        r@ == spec_collapse_whitespace(v@),
{
    let mut out: Vec<char> = Vec::new();
    let mut in_ws = true;
    let mut i: usize = 0;
    proof {
        assert(v@.skip(0) =~= v@);
        assert(out@ + collapse_rec(v@.skip(0), true) =~= collapse_rec(v@, true));
    }
    while i < v.len()
        invariant
            i <= v@.len(),
            collapse_rec(v@, true) == out@ + collapse_rec(v@.skip(i as int), in_ws),
        decreases v@.len() - i,
    {
        let c = v[i];
        proof {
            assert(v@.skip(i as int)[0] == v@[i as int]);
            assert(v@.skip(i as int).drop_first() =~= v@.skip(i as int + 1));
        }
        if char_is_whitespace(c) || char_is_control(c) {
            if !in_ws {
                out.push(' ');
                in_ws = true;
                proof {
                    assert(collapse_rec(v@, true) =~= out@ + collapse_rec(
                        v@.skip(i as int + 1),
                        true,
                    ));
                }
            }
        } else {
            out.push(c);
            in_ws = false;
            proof {
                assert(collapse_rec(v@, true) =~= out@ + collapse_rec(
                    v@.skip(i as int + 1),
                    false,
                ));
            }
        }
        i += 1;
    }
    proof {
        assert(v@.skip(v@.len() as int) =~= Seq::<char>::empty());
        assert(out@ + collapse_rec(v@.skip(v@.len() as int), in_ws) =~= out@);
    }
    if out.len() > 0 && out[out.len() - 1] == ' ' {
        let ghost o0 = out@;
        out.pop();
        proof {
            assert(out@ =~= o0.drop_last());
        }
    }
    out
}

/// Collapse every whitespace or control run to a single space and trim
/// the ends.
pub fn collapse_whitespace(input: &str) -> (r: String)
    ensures
        r@ == spec_collapse_whitespace(input@),
{
    let chars = str_chars(input);
    let out = collapse_chars(&chars);
    chars_to_string(&out)
}

/// The collapsed text cut to at most `max_chars` characters: cut text
/// loses up to three characters to a trailing ellipsis, except under very
/// small limits, where it is cut hard.
pub open spec fn spec_enforce_max_chars(s: Seq<char>, max_chars: nat) -> Seq<char> {
    let clean = spec_collapse_whitespace(s);
    if clean.len() <= max_chars {
        clean
    } else if max_chars <= 3 {
        clean.take(max_chars as int)
    } else {
        trim_trailing(clean.take(max_chars - 3)) + "..."@
    }
}

/// Collapse the text and bound its length, ending cut text with an
/// ellipsis.
pub fn enforce_max_chars(input: &str, max_chars: usize) -> (r: String)
    ensures
        r@ == spec_enforce_max_chars(input@, max_chars as nat),
{
    let chars = str_chars(input);
    let mut clean = collapse_chars(&chars);
    let ghost cl = clean@;
    if clean.len() <= max_chars {
        return chars_to_string(&clean);
    }
    if max_chars <= 3 {
        let cut = slice_chars(&clean, 0, max_chars);
        proof {
            assert(cut@ =~= cl.take(max_chars as int));
        }
        return chars_to_string(&cut);
    }
    let mut cut = slice_chars(&clean, 0, max_chars - 3);
    proof {
        assert(cut@ =~= cl.take(max_chars - 3));
    }
    while cut.len() > 0 && char_is_whitespace(cut[cut.len() - 1])
        invariant
            trim_trailing(cl.take(max_chars - 3)) == trim_trailing(cut@),
        decreases cut@.len(),
    {
        let ghost c0 = cut@;
        cut.pop();
        proof {
            assert(cut@ =~= c0.drop_last());
        }
    }
    proof {
        assert(trim_trailing(cut@) == cut@);
    }
    push_str_chars("...", &mut cut);
    chars_to_string(&cut)
}

/// Whether the text is wrapped in one matching pair of quotes.
pub open spec fn quote_wrapped(s: Seq<char>) -> bool {
    s.len() >= 2 && ((s[0] == '"' && s.last() == '"') || (s[0] == '\'' && s.last() == '\'') || (
    s[0] == '`' && s.last() == '`'))
}

pub open spec fn strip_wrap_rec(s: Seq<char>) -> Seq<char>
    decreases s.len(),
    via strip_wrap_rec_decreases
{
    if quote_wrapped(s) {
        strip_wrap_rec(trim_ws(s.subrange(1, s.len() - 1)))
    } else {
        s
    }
}

#[via_fn]
proof fn strip_wrap_rec_decreases(s: Seq<char>) {
    if quote_wrapped(s) {
        lemma_trim_ws_len(s.subrange(1, s.len() - 1));
    }
}

/// What stripping wrapping quotes leaves: matching quote pairs peeled
/// from the trimmed text, trimming again after each peel.
pub open spec fn spec_strip_wrapping_quotes(s: Seq<char>) -> Seq<char> {
    strip_wrap_rec(trim_ws(s))
}

fn strip_wrap_chars(v: Vec<char>) -> (r: Vec<char>)
    ensures
        r@ == strip_wrap_rec(v@),
    decreases v@.len(),
{
    let n = v.len();
    let wrapped = n >= 2 && ((v[0] == '"' && v[n - 1] == '"') || (v[0] == '\'' && v[n - 1] == '\'')
        || (v[0] == '`' && v[n - 1] == '`'));
    if wrapped {
        let inner = slice_chars(&v, 1, n - 1);
        let t = trim_chars(&inner);
        proof {
            lemma_trim_ws_len(inner@);
        }
        strip_wrap_chars(t)
    } else {
        v
    }
}

/// Strip matching wrapping quote pairs from the trimmed text.
pub fn strip_wrapping_quotes(input: &str) -> (r: String)
    ensures
        r@ == spec_strip_wrapping_quotes(input@),
{
    let chars = str_chars(input);
    let t = trim_chars(&chars);
    let out = strip_wrap_chars(t);
    chars_to_string(&out)
}

pub open spec fn title_punct(c: char) -> bool {
    c == '.' || c == ':' || c == ';'
}

pub open spec fn strip_punct_rec(s: Seq<char>) -> Seq<char>
    decreases s.len(),
    via strip_punct_rec_decreases
{
    if s.len() > 0 && title_punct(s.last()) {
        strip_punct_rec(trim_trailing(s.drop_last()))
    } else {
        s
    }
}

#[via_fn]
proof fn strip_punct_rec_decreases(s: Seq<char>) {
    if s.len() > 0 && title_punct(s.last()) {
        crate::text::lemma_trim_trailing_len(s.drop_last());
    }
}

/// The first line of the raw text that is non-empty after trimming, or
/// the whole trimmed text when there is none.
pub open spec fn first_viable_line(lines: Seq<Seq<char>>, whole: Seq<char>) -> Seq<char>
    decreases lines.len(),
{
    if lines.len() == 0 {
        trim_ws(whole)
    } else if trim_ws(lines[0]).len() > 0 {
        trim_ws(lines[0])
    } else {
        first_viable_line(lines.drop_first(), whole)
    }
}

/// What cleaning the model's raw output means: its first non-empty line,
/// collapsed, unquoted, and with trailing title punctuation removed.
pub open spec fn spec_clean_model_title(raw: Seq<char>) -> Seq<char> {
    let base = first_viable_line(crate::text::spec_lines(raw), raw);
    strip_punct_rec(strip_wrap_rec(trim_ws(spec_collapse_whitespace(base))))
}

fn strip_punct_chars(v: Vec<char>) -> (r: Vec<char>)
    ensures
        r@ == strip_punct_rec(v@),
    decreases v@.len(),
{
    let n = v.len();
    if n > 0 && (v[n - 1] == '.' || v[n - 1] == ':' || v[n - 1] == ';') {
        let dropped = slice_chars(&v, 0, n - 1);
        proof {
            assert(dropped@ =~= v@.drop_last());
        }
        let t = trim_trailing_chars(dropped);
        proof {
            crate::text::lemma_trim_trailing_len(v@.drop_last());
        }
        strip_punct_chars(t)
    } else {
        v
    }
}

fn trim_trailing_chars(v: Vec<char>) -> (r: Vec<char>)
    ensures
        r@ == trim_trailing(v@),
{
    let mut out = v;
    while out.len() > 0 && char_is_whitespace(out[out.len() - 1])
        invariant
            trim_trailing(v@) == trim_trailing(out@),
        decreases out@.len(),
    {
        let ghost o0 = out@;
        out.pop();
        proof {
            assert(out@ =~= o0.drop_last());
        }
    }
    proof {
        assert(trim_trailing(out@) == out@);
    }
    out
}

/// Clean the title model's raw output into a displayable title.
pub fn clean_model_title(raw: &str) -> (r: String)
    ensures
        r@ == spec_clean_model_title(raw@),
{
    let chars = str_chars(raw);
    let lines = crate::text::split_lines(&chars);
    let ghost ls = lines.deep_view();
    let mut base: Option<Vec<char>> = None;
    let mut i: usize = 0;
    proof {
        assert(ls.skip(0) =~= ls);
        assert(lines@.len() == ls.len());
    }
    while i < lines.len() && base.is_none()
        invariant
            i <= lines@.len(),
            lines@.len() == ls.len(),
            ls == lines.deep_view(),
            chars@ == raw@,
            match base {
                None => first_viable_line(ls, chars@) == first_viable_line(
                    ls.skip(i as int),
                    chars@,
                ),
                Some(b) => b@ == first_viable_line(ls, chars@),
            },
        decreases lines@.len() - i,
    {
        proof {
            assert(lines@[i as int]@ == ls[i as int]);
            assert(ls.skip(i as int)[0] == ls[i as int]);
            assert(ls.skip(i as int).drop_first() =~= ls.skip(i as int + 1));
        }
        let t = trim_chars(&lines[i]);
        if t.len() > 0 {
            base = Some(t);
        }
        i += 1;
    }
    let base_chars = match base {
        Some(b) => b,
        None => {
            proof {
                assert(ls.skip(ls.len() as int) =~= Seq::<Seq<char>>::empty());
            }
            trim_chars(&chars)
        },
    };
    proof {
        assert(base_chars@ == first_viable_line(ls, chars@));
    }
    let collapsed = collapse_chars(&base_chars);
    let trimmed = trim_chars(&collapsed);
    let unquoted = strip_wrap_chars(trimmed);
    let out = strip_punct_chars(unquoted);
    chars_to_string(&out)
}

/// A viable title: at least two characters once trimmed, at least one of
/// them ASCII alphanumeric.
pub open spec fn spec_is_viable_title(s: Seq<char>) -> bool {
    let t = trim_ws(s);
    t.len() >= 2 && exists|j: int| 0 <= j < t.len() && spec_ascii_alphanumeric(t[j])
}

/// Whether the text can stand as a tab title.
pub fn is_viable_title(input: &str) -> (r: bool)
    ensures
        r == spec_is_viable_title(input@),
{
    let chars = str_chars(input);
    let t = trim_chars(&chars);
    if t.len() < 2 {
        return false;
    }
    let mut i: usize = 0;
    while i < t.len()
        invariant
            i <= t@.len(),
            t@ == trim_ws(input@),
            t@.len() >= 2,
            forall|j: int| 0 <= j < i ==> !spec_ascii_alphanumeric(t@[j]),
        decreases t@.len() - i,
    {
        if is_ascii_alphanumeric_char(t[i]) {
            return true;
        }
        i += 1;
    }
    false
}

/// Whether a prompt is tool or harness noise rather than user text: it
/// opens with a known marker, carries an instructions tag, or is one
/// wrapped tag block.
pub open spec fn spec_prompt_is_noise(clean: Seq<char>) -> bool {
    let lower = spec_ascii_lower_seq(clean);
    ||| spec_starts_with(lower, "<environment_context>"@)
    ||| spec_starts_with(lower, "<turn_aborted>"@)
    ||| spec_starts_with(lower, "<permissions instructions>"@)
    ||| spec_starts_with(lower, "# agents.md instructions"@)
    ||| spec_contains_sub(lower, "<instructions>"@)
    ||| (clean.len() > 0 && clean[0] == '<' && clean.last() == '>' && spec_contains_sub(
        clean,
        "</"@,
    ))
}

/// What sanitizing a prompt for the title yields: the collapsed prompt,
/// unless it is empty or noise.
pub open spec fn spec_sanitize_prompt(s: Seq<char>) -> Option<Seq<char>> {
    let clean = spec_collapse_whitespace(s);
    if clean.len() == 0 {
        None
    } else if spec_prompt_is_noise(clean) {
        None
    } else {
        Some(clean)
    }
}

/// Collapse a prompt and reject empty or noise prompts.
pub fn sanitize_user_prompt_for_title(input: &str) -> (r: Option<String>)
    ensures
        match r {
            Some(s) => spec_sanitize_prompt(input@) == Some(s@),
            None => spec_sanitize_prompt(input@) is None,
        },
{
    let chars = str_chars(input);
    let clean = collapse_chars(&chars);
    if clean.len() == 0 {
        return None;
    }
    let lower = ascii_lower_chars(&clean);
    let p1 = str_chars("<environment_context>");
    let p2 = str_chars("<turn_aborted>");
    let p3 = str_chars("<permissions instructions>");
    let p4 = str_chars("# agents.md instructions");
    let p5 = str_chars("<instructions>");
    let p6 = str_chars("</");
    if starts_with_chars(&lower, &p1) || starts_with_chars(&lower, &p2) || starts_with_chars(
        &lower,
        &p3,
    ) || starts_with_chars(&lower, &p4) || contains_sub(&lower, &p5) {
        return None;
    }
    if clean[0] == '<' && clean[clean.len() - 1] == '>' && contains_sub(&clean, &p6) {
        return None;
    }
    Some(chars_to_string(&clean))
}

/// What combining prompts for the fallback title yields: the non-empty
/// collapsed prompts joined by single spaces, stopping once three times
/// the character budget has accumulated.
pub open spec fn combine_rec(ps: Seq<Seq<char>>, acc: Seq<char>, limit: int) -> Seq<char>
    decreases ps.len(),
{
    if ps.len() == 0 {
        acc
    } else {
        let clean = spec_collapse_whitespace(ps[0]);
        if clean.len() == 0 {
            combine_rec(ps.drop_first(), acc, limit)
        } else {
            let acc2 = if acc.len() == 0 {
                clean
            } else {
                acc + seq![' '] + clean
            };
            if acc2.len() >= limit {
                acc2
            } else {
                combine_rec(ps.drop_first(), acc2, limit)
            }
        }
    }
}

pub open spec fn spec_deterministic_title(ps: Seq<Seq<char>>, max_chars: nat) -> Option<
    Seq<char>,
> {
    let combined = combine_rec(ps, Seq::empty(), 3 * max_chars as int);
    if combined.len() == 0 {
        None
    } else {
        Some(spec_enforce_max_chars(combined, max_chars))
    }
}

/// The fallback title: the newest prompts combined and cut to the budget;
/// `None` when no prompt contributes anything.
pub fn deterministic_title_from_prompts(prompts_newest_first: &Vec<String>, max_chars: usize) -> (r:
    Option<String>)
    requires
        max_chars <= usize::MAX / 3,
    ensures
        match r {
            Some(s) => spec_deterministic_title(prompts_newest_first.deep_view(), max_chars as nat)
                == Some(s@),
            None => spec_deterministic_title(prompts_newest_first.deep_view(), max_chars as nat)
                is None,
        },
{
    let ghost ps = prompts_newest_first.deep_view();
    let ghost limit = 3 * max_chars as int;
    let mut combined: Vec<char> = Vec::new();
    let mut i: usize = 0;
    proof {
        assert(ps.skip(0) =~= ps);
        assert(prompts_newest_first@.len() == ps.len());
    }
    let mut done = false;
    while i < prompts_newest_first.len() && !done
        invariant
            i <= prompts_newest_first@.len(),
            prompts_newest_first@.len() == ps.len(),
            ps == prompts_newest_first.deep_view(),
            limit == 3 * max_chars as int,
            max_chars <= usize::MAX / 3,
            !done ==> combined@.len() < limit || combined@.len() == 0,
            !done ==> combine_rec(ps, Seq::empty(), limit) == combine_rec(
                ps.skip(i as int),
                combined@,
                limit,
            ),
            done ==> combine_rec(ps, Seq::empty(), limit) == combined@,
        decreases prompts_newest_first@.len() - i,
    {
        proof {
            assert(prompts_newest_first@[i as int]@ == ps[i as int]);
            assert(ps.skip(i as int)[0] == ps[i as int]);
            assert(ps.skip(i as int).drop_first() =~= ps.skip(i as int + 1));
        }
        let pc = str_chars(prompts_newest_first[i].as_str());
        let clean = collapse_chars(&pc);
        if clean.len() > 0 {
            let ghost c0 = combined@;
            if combined.len() > 0 {
                combined.push(' ');
            }
            let mut k: usize = 0;
            let ghost mid = combined@;
            proof {
                assert(mid + clean@.take(0) =~= mid);
            }
            while k < clean.len()
                invariant
                    k <= clean@.len(),
                    combined@ == mid + clean@.take(k as int),
                decreases clean@.len() - k,
            {
                combined.push(clean[k]);
                assert(combined@ =~= mid + clean@.take(k + 1));
                k += 1;
            }
            proof {
                assert(clean@.take(clean@.len() as int) =~= clean@);
                if c0.len() == 0 {
                    assert(combined@ =~= clean@);
                } else {
                    assert(combined@ =~= c0 + seq![' '] + clean@);
                }
            }
            if combined.len() >= 3 * max_chars {
                done = true;
            }
        }
        i += 1;
    }
    proof {
        if !done {
            assert(ps.skip(ps.len() as int) =~= Seq::<Seq<char>>::empty());
        }
        assert(combine_rec(ps, Seq::empty(), limit) == combined@);
    }
    if combined.len() == 0 {
        return None;
    }
    let combined_s = chars_to_string(&combined);
    Some(enforce_max_chars(combined_s.as_str(), max_chars))
}

/// The instruction text sent to the title model: the fixed instructions,
/// the character budget, and the newest prompt cut to its own budget.
pub open spec fn spec_title_prompt(ps: Seq<Seq<char>>, max_chars: nat) -> Seq<char> {
    "Generate a brief terminal tab title for this user prompt. Rules: output ONLY the title, no quotes, no prefixes, no explanation. Use 2-5 words. Maximum "@
        + spec_dec_str(max_chars) + " characters.\n\nUser prompt: "@ + (if ps.len() > 0 {
        spec_enforce_max_chars(ps[0], 200)
    } else {
        Seq::empty()
    })
}

/// Build the instruction text for the title model.
pub fn build_title_generation_prompt(prompts_newest_first: &Vec<String>, max_chars: usize) -> (r:
    String)
    ensures
        r@ == spec_title_prompt(prompts_newest_first.deep_view(), max_chars as nat),
{
    let mut out: Vec<char> = Vec::new();
    push_str_chars(
        "Generate a brief terminal tab title for this user prompt. Rules: output ONLY the title, no quotes, no prefixes, no explanation. Use 2-5 words. Maximum ",
        &mut out,
    );
    push_dec(max_chars as u64, &mut out);
    push_str_chars(" characters.\n\nUser prompt: ", &mut out);
    if prompts_newest_first.len() > 0 {
        proof {
            assert(prompts_newest_first@[0].deep_view() == prompts_newest_first.deep_view()[0]);
        }
        let primary = enforce_max_chars(prompts_newest_first[0].as_str(), 200);
        push_str_chars(primary.as_str(), &mut out);
    }
    proof {
        assert(out@ =~= spec_title_prompt(prompts_newest_first.deep_view(), max_chars as nat));
    }
    chars_to_string(&out)
}

pub open spec fn trim_slashes(s: Seq<char>) -> Seq<char>
    decreases s.len(),
{
    if s.len() > 0 && s.last() == '/' {
        trim_slashes(s.drop_last())
    } else {
        s
    }
}

/// Paths normalized for comparison: trimmed, backslashes turned into
/// slashes, trailing slashes removed.
pub open spec fn spec_normalize_compare_path(s: Seq<char>) -> Seq<char> {
    trim_slashes(
        trim_ws(s).map_values(
            |c: char|
                if c == '\\' {
                    '/'
                } else {
                    c
                },
        ),
    )
}

/// Normalize a path for comparison with another.
pub fn normalize_compare_path(path: &str) -> (r: String)
    ensures
        r@ == spec_normalize_compare_path(path@),
{
    let chars = str_chars(path);
    let t = trim_chars(&chars);
    let ghost mapped = trim_ws(path@).map_values(
        |c: char|
            if c == '\\' {
                '/'
            } else {
                c
            },
    );
    let mut out: Vec<char> = Vec::new();
    let mut i: usize = 0;
    proof {
        assert(out@ =~= mapped.take(0));
        assert(t@.len() == mapped.len());
    }
    while i < t.len()
        invariant
            i <= t@.len(),
            t@ == trim_ws(path@),
            t@.len() == mapped.len(),
            mapped == trim_ws(path@).map_values(
                |c: char|
                    if c == '\\' {
                        '/'
                    } else {
                        c
                    },
            ),
            out@ == mapped.take(i as int),
        decreases t@.len() - i,
    {
        if t[i] == '\\' {
            out.push('/');
        } else {
            out.push(t[i]);
        }
        assert(out@ =~= mapped.take(i + 1));
        i += 1;
    }
    proof {
        assert(mapped.take(mapped.len() as int) =~= mapped);
    }
    while out.len() > 0 && out[out.len() - 1] == '/'
        invariant
            trim_slashes(mapped) == trim_slashes(out@),
        decreases out@.len(),
    {
        let ghost o0 = out@;
        out.pop();
        proof {
            assert(out@ =~= o0.drop_last());
        }
    }
    proof {
        assert(trim_slashes(out@) == out@);
    }
    chars_to_string(&out)
}

/// What the title model's raw output yields once cleaned: the cleaned
/// and cut title when it is viable, nothing otherwise.
pub open spec fn spec_title_from_model_output(raw: Seq<char>, max_chars: nat) -> Option<
    Seq<char>,
> {
    let cleaned = spec_clean_model_title(raw);
    if cleaned.len() == 0 {
        None
    } else {
        let t = spec_enforce_max_chars(cleaned, max_chars);
        if spec_is_viable_title(t) {
            Some(t)
        } else {
            None
        }
    }
}

/// Judge and shape the title model's raw output, whatever came back from
/// the model: clean it, cut it to the budget, and accept only a viable
/// title.
pub fn title_from_model_output(raw: &str, max_chars: usize) -> (r: Option<String>)
    ensures
        match r {
            Some(s) => spec_title_from_model_output(raw@, max_chars as nat) == Some(s@),
            None => spec_title_from_model_output(raw@, max_chars as nat) is None,
        },
{
    let cleaned = clean_model_title(raw);
    if cleaned.as_str().unicode_len() == 0 {
        return None;
    }
    let t = enforce_max_chars(cleaned.as_str(), max_chars);
    if is_viable_title(t.as_str()) {
        Some(t)
    } else {
        None
    }
}

/// Clamp a configuration value into an inclusive range.
pub fn clamp_usize(x: usize, lo: usize, hi: usize) -> (r: usize)
    requires
        lo <= hi,
    ensures
        r == if x < lo {
            lo
        } else if x > hi {
            hi
        } else {
            x
        },
{
    if x < lo {
        lo
    } else if x > hi {
        hi
    } else {
        x
    }
}

// ---------------------------------------------------------------------------
// Session transcripts
// ---------------------------------------------------------------------------

/// What a timestamp string means in epoch milliseconds, as the RFC 3339
/// parser reads it: a function of the text alone.
pub uninterp spec fn rfc3339_ms_of(s: Seq<char>) -> Option<i64>;

/// Relies on `chrono::DateTime::parse_from_rfc3339` followed by
/// `DateTime::timestamp_millis`: an RFC 3339 timestamp carries its own
/// offset, so the result depends on the text alone; `None` exactly when
/// the text is not a valid RFC 3339 timestamp.
#[verifier::external_body]
fn parse_rfc3339_ms(value: &str) -> (r: Option<i64>)
    ensures
        r == rfc3339_ms_of(value@),
{
    match chrono::DateTime::parse_from_rfc3339(value) {
        Ok(dt) => Some(dt.timestamp_millis()),
        Err(_) => None,
    }
}

/// The text block one prompt content item contributes: the collapsed
/// `text` of an `input_text` object, or a collapsed bare string; empty
/// blocks contribute nothing.
pub open spec fn spec_prompt_item_block(it: JsonModel) -> Option<Seq<char>> {
    let type_is_input = match it.spec_get("type"@) {
        Some(tv) => match tv.spec_as_str() {
            Some(t) => t == "input_text"@,
            None => false,
        },
        None => false,
    };
    if type_is_input {
        match it.spec_get("text"@) {
            Some(x) => match x.spec_as_str() {
                Some(txt) => {
                    let clean = spec_collapse_whitespace(txt);
                    if clean.len() > 0 {
                        Some(clean)
                    } else {
                        None
                    }
                },
                None => None,
            },
            None => None,
        }
    } else {
        match it {
            JsonModel::Str(txt) => {
                let clean = spec_collapse_whitespace(txt);
                if clean.len() > 0 {
                    Some(clean)
                } else {
                    None
                }
            },
            _ => None,
        }
    }
}

pub open spec fn spec_prompt_array_blocks(items: Seq<JsonModel>) -> Seq<Seq<char>>
    decreases items.len(),
{
    if items.len() == 0 {
        Seq::empty()
    } else {
        spec_prompt_array_blocks(items.drop_last()) + (match spec_prompt_item_block(
            items.last(),
        ) {
            Some(b) => seq![b],
            None => Seq::empty(),
        })
    }
}

/// The collapsed text blocks of a prompt record's content: one block for
/// a plain string, one for an `input_text` object, one per contributing
/// item of an array.
pub open spec fn spec_input_text_blocks(content: Option<JsonModel>) -> Seq<Seq<char>> {
    match content {
        Some(c) => match c {
            JsonModel::Str(txt) => {
                let clean = spec_collapse_whitespace(txt);
                if clean.len() > 0 {
                    seq![clean]
                } else {
                    Seq::empty()
                }
            },
            JsonModel::Obj(_) => match spec_prompt_item_block(c) {
                Some(b) => seq![b],
                None => Seq::empty(),
            },
            JsonModel::Arr(items) => spec_prompt_array_blocks(items),
            _ => Seq::empty(),
        },
        None => Seq::empty(),
    }
}

fn prompt_item_block(it: &JsonValue) -> (r: Option<String>)
    ensures
        match r {
            Some(b) => spec_prompt_item_block(it@) == Some(b@),
            None => spec_prompt_item_block(it@) is None,
        },
{
    let type_is_input = match it.get("type") {
        Some(tv) => match tv.as_str() {
            Some(t) => string_eq_str(t, "input_text"),
            None => false,
        },
        None => false,
    };
    if type_is_input {
        match it.get("text") {
            Some(x) => match x.as_str() {
                Some(txt) => {
                    let pc = str_chars(txt.as_str());
                    let clean = collapse_chars(&pc);
                    if clean.len() > 0 {
                        Some(chars_to_string(&clean))
                    } else {
                        None
                    }
                },
                None => None,
            },
            None => None,
        }
    } else {
        match it {
            JsonValue::Str(txt) => {
                let pc = str_chars(txt.as_str());
                let clean = collapse_chars(&pc);
                if clean.len() > 0 {
                    Some(chars_to_string(&clean))
                } else {
                    None
                }
            },
            _ => None,
        }
    }
}

/// The collapsed text blocks of a prompt record's content.
pub fn extract_input_text_blocks(content: Option<&JsonValue>) -> (r: Vec<String>)
    ensures
        r.deep_view() == spec_input_text_blocks(match content {
            Some(c) => Some(c@),
            None => None,
        }),
{
    let mut out: Vec<String> = Vec::new();
    match content {
        Some(c) => match c {
            JsonValue::Str(txt) => {
                let pc = str_chars(txt.as_str());
                let clean = collapse_chars(&pc);
                if clean.len() > 0 {
                    let ghost o0 = out.deep_view();
                    out.push(chars_to_string(&clean));
                    proof {
                        assert(out.deep_view() =~~= o0.push(clean@));
                        assert(out.deep_view() =~= seq![spec_collapse_whitespace(txt@)]);
                    }
                } else {
                    proof {
                        assert(out.deep_view() =~= Seq::<Seq<char>>::empty());
                    }
                }
            },
            JsonValue::Obj(_) => {
                match prompt_item_block(c) {
                    Some(b) => {
                        let ghost o0 = out.deep_view();
                        let ghost bv = b@;
                        out.push(b);
                        proof {
                            assert(out.deep_view() =~~= o0.push(bv));
                            assert(out.deep_view() =~= seq![bv]);
                        }
                    },
                    None => {
                        proof {
                            assert(out.deep_view() =~= Seq::<Seq<char>>::empty());
                        }
                    },
                }
            },
            JsonValue::Arr(items) => {
                let ghost ms = jv_models(items@);
                proof {
                    lemma_jv_models_len(items@);
                    assert(c@ == JsonModel::Arr(ms));
                    assert(ms.take(0) =~= Seq::<JsonModel>::empty());
                    assert(out.deep_view() =~= spec_prompt_array_blocks(ms.take(0)));
                }
                let mut i: usize = 0;
                while i < items.len()
                    invariant
                        i <= items@.len(),
                        ms == jv_models(items@),
                        ms.len() == items@.len(),
                        out.deep_view() == spec_prompt_array_blocks(ms.take(i as int)),
                    decreases items@.len() - i,
                {
                    proof {
                        lemma_jv_models_index(items@, i as int);
                        assert(ms.take(i as int + 1).drop_last() =~= ms.take(i as int));
                        assert(ms.take(i as int + 1).last() == ms[i as int]);
                    }
                    match prompt_item_block(&items[i]) {
                        Some(b) => {
                            let ghost o0 = out.deep_view();
                            let ghost bv = b@;
                            out.push(b);
                            proof {
                                assert(out.deep_view() =~~= o0.push(bv));
                                assert(out.deep_view() =~= spec_prompt_array_blocks(
                                    ms.take(i as int + 1),
                                ));
                            }
                        },
                        None => {
                            proof {
                                assert(spec_prompt_array_blocks(ms.take(i as int + 1))
                                    =~= spec_prompt_array_blocks(ms.take(i as int)));
                            }
                        },
                    }
                    i += 1;
                }
                proof {
                    assert(ms.take(ms.len() as int) =~= ms);
                }
            },
            _ => {
                proof {
                    assert(out.deep_view() =~= Seq::<Seq<char>>::empty());
                }
            },
        },
        None => {
            proof {
                assert(out.deep_view() =~= Seq::<Seq<char>>::empty());
            }
        },
    }
    out
}

/// Blocks joined by single spaces.
pub open spec fn spec_join_space(blocks: Seq<Seq<char>>) -> Seq<char>
    decreases blocks.len(),
{
    if blocks.len() == 0 {
        Seq::empty()
    } else if blocks.len() == 1 {
        blocks[0]
    } else {
        spec_join_space(blocks.drop_last()) + seq![' '] + blocks.last()
    }
}

/// What one transcript line contributes to the prompt list: the
/// sanitized combined text of a user message record stamped at or after
/// the spawn time; anything else contributes nothing.
pub open spec fn spec_prompt_of_line(line: Seq<char>, spawned_at_ms: i64) -> Option<Seq<char>> {
    if trim_ws(line).len() == 0 {
        None
    } else {
        match json_parse(line) {
            Some(m) => {
                let is_user_msg = {
                    &&& (match m.spec_get("type"@) {
                        Some(tv) => tv.spec_as_str() == Some("response_item"@),
                        None => false,
                    })
                    &&& (match m.spec_get("payload"@) {
                        Some(p) => {
                            &&& (match p.spec_get("type"@) {
                                Some(tv) => tv.spec_as_str() == Some("message"@),
                                None => false,
                            })
                            &&& (match p.spec_get("role"@) {
                                Some(rv) => rv.spec_as_str() == Some("user"@),
                                None => false,
                            })
                        },
                        None => false,
                    })
                };
                if !is_user_msg {
                    None
                } else {
                    let ts = match m.spec_get("timestamp"@) {
                        Some(tv) => match tv.spec_as_str() {
                            Some(t) => rfc3339_ms_of(t),
                            None => None,
                        },
                        None => None,
                    };
                    match ts {
                        Some(t) => if t < spawned_at_ms {
                            None
                        } else {
                            let blocks = spec_input_text_blocks(
                                match m.spec_get("payload"@) {
                                    Some(p) => p.spec_get("content"@),
                                    None => None,
                                },
                            );
                            if blocks.len() == 0 {
                                None
                            } else {
                                spec_sanitize_prompt(spec_join_space(blocks))
                            }
                        },
                        None => None,
                    }
                }
            },
            None => None,
        }
    }
}

pub open spec fn spec_prompts_oldest_first(lines: Seq<Seq<char>>, spawned_at_ms: i64) -> Seq<
    Seq<char>,
>
    decreases lines.len(),
{
    if lines.len() == 0 {
        Seq::empty()
    } else {
        spec_prompts_oldest_first(lines.drop_last(), spawned_at_ms) + (
        match spec_prompt_of_line(lines.last(), spawned_at_ms) {
            Some(p) => seq![p],
            None => Seq::empty(),
        })
    }
}

/// The prompts handed to the title generator: the sanitized user prompts
/// stamped at or after the spawn time, newest first, at most
/// `prompt_limit` of them.
pub open spec fn spec_user_prompts(
    lines: Seq<Seq<char>>,
    spawned_at_ms: i64,
    prompt_limit: nat,
) -> Seq<Seq<char>> {
    let oldest = spec_prompts_oldest_first(lines, spawned_at_ms);
    oldest.reverse().take(if prompt_limit <= oldest.len() {
        prompt_limit as int
    } else {
        oldest.len() as int
    })
}

fn prompt_of_line(line: &String, spawned_at_ms: i64) -> (r: Option<String>)
    ensures
        match r {
            Some(p) => spec_prompt_of_line(line@, spawned_at_ms) == Some(p@),
            None => spec_prompt_of_line(line@, spawned_at_ms) is None,
        },
{
    let lc = str_chars(line.as_str());
    let t = trim_chars(&lc);
    if t.len() == 0 {
        return None;
    }
    let m = match crate::json::parse_json_line(line.as_str()) {
        Some(v) => v,
        None => {
            return None;
        },
    };
    let type_ok = match m.get("type") {
        Some(tv) => match tv.as_str() {
            Some(t2) => string_eq_str(t2, "response_item"),
            None => false,
        },
        None => false,
    };
    if !type_ok {
        return None;
    }
    let payload_ok = match m.get("payload") {
        Some(p) => {
            let ptype_ok = match p.get("type") {
                Some(tv) => match tv.as_str() {
                    Some(t2) => string_eq_str(t2, "message"),
                    None => false,
                },
                None => false,
            };
            let role_ok = match p.get("role") {
                Some(rv) => match rv.as_str() {
                    Some(t2) => string_eq_str(t2, "user"),
                    None => false,
                },
                None => false,
            };
            ptype_ok && role_ok
        },
        None => false,
    };
    if !payload_ok {
        return None;
    }
    let ts = match m.get("timestamp") {
        Some(tv) => match tv.as_str() {
            Some(t2) => parse_rfc3339_ms(t2.as_str()),
            None => None,
        },
        None => None,
    };
    let ts_ms = match ts {
        Some(v) => v,
        None => {
            return None;
        },
    };
    if ts_ms < spawned_at_ms {
        return None;
    }
    let content = match m.get("payload") {
        Some(p) => p.get("content"),
        None => None,
    };
    let blocks = extract_input_text_blocks(content);
    if blocks.len() == 0 {
        proof {
            assert(blocks.deep_view().len() == 0);
        }
        return None;
    }
    proof {
        assert(blocks.deep_view().len() > 0);
    }
    let ghost bs = blocks.deep_view();
    let mut joined: Vec<char> = Vec::new();
    let mut i: usize = 0;
    proof {
        assert(bs.take(0) =~= Seq::<Seq<char>>::empty());
        assert(joined@ =~= spec_join_space(bs.take(0)));
        assert(blocks@.len() == bs.len());
    }
    while i < blocks.len()
        invariant
            i <= blocks@.len(),
            blocks@.len() == bs.len(),
            bs == blocks.deep_view(),
            joined@ == spec_join_space(bs.take(i as int)),
        decreases blocks@.len() - i,
    {
        proof {
            assert(blocks@[i as int]@ == bs[i as int]);
            assert(bs.take(i as int + 1).drop_last() =~= bs.take(i as int));
            assert(bs.take(i as int + 1).last() == bs[i as int]);
        }
        if i > 0 {
            joined.push(' ');
        }
        let bc = str_chars(blocks[i].as_str());
        let ghost mid = joined@;
        let mut k: usize = 0;
        proof {
            assert(mid + bc@.take(0) =~= mid);
        }
        while k < bc.len()
            invariant
                k <= bc@.len(),
                joined@ == mid + bc@.take(k as int),
            decreases bc@.len() - k,
        {
            joined.push(bc[k]);
            assert(joined@ =~= mid + bc@.take(k + 1));
            k += 1;
        }
        proof {
            assert(bc@.take(bc@.len() as int) =~= bc@);
            assert(joined@ =~= spec_join_space(bs.take(i as int + 1)));
        }
        i += 1;
    }
    proof {
        assert(bs.take(bs.len() as int) =~= bs);
    }
    let joined_s = chars_to_string(&joined);
    sanitize_user_prompt_for_title(joined_s.as_str())
}

/// Gather the title prompts from a transcript's lines: the sanitized
/// user prompts stamped at or after the spawn time, newest first, at
/// most `prompt_limit` of them.
pub fn extract_user_prompts(lines: &Vec<String>, spawned_at_ms: i64, prompt_limit: usize) -> (r:
    Vec<String>)
    ensures
        r.deep_view() == spec_user_prompts(lines.deep_view(), spawned_at_ms, prompt_limit as nat),
{
    let ghost ls = lines.deep_view();
    let mut oldest: Vec<String> = Vec::new();
    let mut i: usize = 0;
    proof {
        assert(ls.take(0) =~= Seq::<Seq<char>>::empty());
        assert(oldest.deep_view() =~= spec_prompts_oldest_first(ls.take(0), spawned_at_ms));
        assert(lines@.len() == ls.len());
    }
    while i < lines.len()
        invariant
            i <= lines@.len(),
            lines@.len() == ls.len(),
            ls == lines.deep_view(),
            oldest.deep_view() == spec_prompts_oldest_first(ls.take(i as int), spawned_at_ms),
        decreases lines@.len() - i,
    {
        proof {
            assert(lines@[i as int]@ == ls[i as int]);
            assert(ls.take(i as int + 1).drop_last() =~= ls.take(i as int));
            assert(ls.take(i as int + 1).last() == ls[i as int]);
        }
        match prompt_of_line(&lines[i], spawned_at_ms) {
            Some(p) => {
                let ghost o0 = oldest.deep_view();
                let ghost pv = p@;
                oldest.push(p);
                proof {
                    assert(oldest.deep_view() =~~= o0.push(pv));
                    assert(oldest.deep_view() =~= spec_prompts_oldest_first(
                        ls.take(i as int + 1),
                        spawned_at_ms,
                    ));
                }
            },
            None => {
                proof {
                    assert(spec_prompts_oldest_first(ls.take(i as int + 1), spawned_at_ms)
                        =~= spec_prompts_oldest_first(ls.take(i as int), spawned_at_ms));
                }
            },
        }
        i += 1;
    }
    proof {
        assert(ls.take(ls.len() as int) =~= ls);
    }
    let ghost ov = oldest.deep_view();
    let n = oldest.len();
    let count = if prompt_limit <= n {
        prompt_limit
    } else {
        n
    };
    let mut r: Vec<String> = Vec::new();
    let mut j: usize = 0;
    proof {
        assert(oldest@.len() == ov.len());
        assert(r.deep_view() =~= ov.reverse().take(0));
    }
    while j < count
        invariant
            j <= count,
            count <= n,
            n == oldest@.len(),
            oldest@.len() == ov.len(),
            ov == oldest.deep_view(),
            count == if prompt_limit <= ov.len() {
                prompt_limit as int
            } else {
                ov.len() as int
            },
            r.deep_view() == ov.reverse().take(j as int),
        decreases count - j,
    {
        proof {
            assert(oldest@[n - 1 - j as int].deep_view() == ov[n - 1 - j as int]);
            assert(ov.reverse()[j as int] == ov[n - 1 - j as int]);
        }
        let item = oldest[n - 1 - j].clone();
        proof {
            assert(item@ == ov[n - 1 - j as int]);
        }
        let ghost r0 = r.deep_view();
        let ghost iv = item@;
        r.push(item);
        proof {
            assert(r.deep_view() =~~= r0.push(iv));
            assert(r.deep_view() =~= ov.reverse().take(j as int + 1));
        }
        j += 1;
    }
    r
}

/// What the first session-description record of a transcript says: the
/// working directory and start time of the session. The first record of
/// the right type decides; one that lacks a field or a parseable
/// timestamp yields nothing.
pub open spec fn spec_session_meta(lines: Seq<Seq<char>>) -> Option<(Seq<char>, i64)>
    decreases lines.len(),
{
    if lines.len() == 0 {
        None
    } else {
        let is_meta = match json_parse(lines[0]) {
            Some(m) => match m.spec_get("type"@) {
                Some(tv) => tv.spec_as_str() == Some("session_meta"@),
                None => false,
            },
            None => false,
        };
        if is_meta {
            spec_meta_payload(json_parse(lines[0])->0)
        } else {
            spec_session_meta(lines.drop_first())
        }
    }
}

pub open spec fn spec_meta_payload(m: JsonModel) -> Option<(Seq<char>, i64)> {
    match m.spec_get("payload"@) {
        Some(p) => match p.spec_get("cwd"@) {
            Some(cv) => match cv.spec_as_str() {
                Some(cwd) => match p.spec_get("timestamp"@) {
                    Some(tv) => match tv.spec_as_str() {
                        Some(ts) => match rfc3339_ms_of(ts) {
                            Some(ms) => Some((cwd, ms)),
                            None => None,
                        },
                        None => None,
                    },
                    None => None,
                },
                None => None,
            },
            None => None,
        },
        None => None,
    }
}

/// Read the session description from a transcript's leading lines.
pub fn session_meta_of_lines(lines: &Vec<String>) -> (r: Option<(String, i64)>)
    ensures
        match r {
            Some(meta) => spec_session_meta(lines.deep_view()) == Some((meta.0@, meta.1)),
            None => spec_session_meta(lines.deep_view()) is None,
        },
{
    let ghost ls = lines.deep_view();
    let mut i: usize = 0;
    proof {
        assert(ls.skip(0) =~= ls);
        assert(lines@.len() == ls.len());
    }
    while i < lines.len()
        invariant
            i <= lines@.len(),
            lines@.len() == ls.len(),
            ls == lines.deep_view(),
            spec_session_meta(ls) == spec_session_meta(ls.skip(i as int)),
        decreases lines@.len() - i,
    {
        proof {
            assert(lines@[i as int]@ == ls[i as int]);
            assert(ls.skip(i as int)[0] == ls[i as int]);
            assert(ls.skip(i as int).drop_first() =~= ls.skip(i as int + 1));
        }
        match crate::json::parse_json_line(lines[i].as_str()) {
            Some(m) => {
                let is_meta = match m.get("type") {
                    Some(tv) => match tv.as_str() {
                        Some(t2) => string_eq_str(t2, "session_meta"),
                        None => false,
                    },
                    None => false,
                };
                if is_meta {
                    let payload = match m.get("payload") {
                        Some(p) => p,
                        None => {
                            return None;
                        },
                    };
                    let cwd = match payload.get("cwd") {
                        Some(cv) => match cv.as_str() {
                            Some(c2) => c2.clone(),
                            None => {
                                return None;
                            },
                        },
                        None => {
                            return None;
                        },
                    };
                    let ts = match payload.get("timestamp") {
                        Some(tv) => match tv.as_str() {
                            Some(t2) => t2.clone(),
                            None => {
                                return None;
                            },
                        },
                        None => {
                            return None;
                        },
                    };
                    match parse_rfc3339_ms(ts.as_str()) {
                        Some(ms) => {
                            return Some((cwd, ms));
                        },
                        None => {
                            return None;
                        },
                    }
                }
            },
            None => {},
        }
        i += 1;
    }
    proof {
        assert(ls.skip(ls.len() as int) =~= Seq::<Seq<char>>::empty());
    }
    None
}

/// One transcript file the session search considers: its path, the
/// session's working directory and start time, and the file's
/// modification time when it was available.
pub struct SessionFileInfo {
    pub path: String,
    pub cwd: String,
    pub started_ms: i64,
    pub mtime_ms: Option<i64>,
}

pub ghost struct SessionFileInfoModel {
    pub path: Seq<char>,
    pub cwd: Seq<char>,
    pub started_ms: i64,
    pub mtime_ms: Option<i64>,
}

impl View for SessionFileInfo {
    type V = SessionFileInfoModel;

    open spec fn view(&self) -> SessionFileInfoModel {
        SessionFileInfoModel {
            path: self.path@,
            cwd: self.cwd@,
            started_ms: self.started_ms,
            mtime_ms: self.mtime_ms,
        }
    }
}

impl DeepView for SessionFileInfo {
    type V = SessionFileInfoModel;

    open spec fn deep_view(&self) -> SessionFileInfoModel {
        self.view()
    }
}

pub open spec fn spec_matches_project(f: SessionFileInfoModel, project: Seq<char>) -> bool {
    spec_normalize_compare_path(f.cwd) == spec_normalize_compare_path(project)
}

/// The path with the minimal key among candidates, the first of equals
/// winning, as a fold from the front.
pub open spec fn spec_best_by(
    files: Seq<SessionFileInfoModel>,
    keyed: spec_fn(SessionFileInfoModel) -> Option<i64>,
) -> Option<(Seq<char>, i64)>
    decreases files.len(),
{
    if files.len() == 0 {
        None
    } else {
        let rest = spec_best_by(files.drop_last(), keyed);
        match keyed(files.last()) {
            Some(k) => match rest {
                Some(b) => if k < b.1 {
                    Some((files.last().path, k))
                } else {
                    rest
                },
                None => Some((files.last().path, k)),
            },
            None => rest,
        }
    }
}

pub open spec fn spec_start_key(project: Seq<char>, spawned_at_ms: i64) -> spec_fn(
    SessionFileInfoModel,
) -> Option<i64> {
    |f: SessionFileInfoModel|
        if spec_matches_project(f, project) && f.started_ms >= spawned_at_ms {
            Some(f.started_ms)
        } else {
            None
        }
}

pub open spec fn spec_mtime_key(project: Seq<char>, spawned_at_ms: i64) -> spec_fn(
    SessionFileInfoModel,
) -> Option<i64> {
    |f: SessionFileInfoModel|
        if spec_matches_project(f, project) && f.started_ms < spawned_at_ms {
            match f.mtime_ms {
                Some(mt) => if mt >= spawned_at_ms {
                    Some(mt)
                } else {
                    None
                },
                None => None,
            }
        } else {
            None
        }
}

/// Which transcript the title should come from: among files for this
/// project, the one whose session started earliest at or after the spawn
/// time; failing that, the earliest-modified file changed since the
/// spawn time.
pub open spec fn spec_select_session_file(
    files: Seq<SessionFileInfoModel>,
    project: Seq<char>,
    spawned_at_ms: i64,
) -> Option<Seq<char>> {
    match spec_best_by(files, spec_start_key(project, spawned_at_ms)) {
        Some(b) => Some(b.0),
        None => match spec_best_by(files, spec_mtime_key(project, spawned_at_ms)) {
            Some(b) => Some(b.0),
            None => None,
        },
    }
}

/// Pick the transcript file the title should come from.
pub fn select_session_file(
    files: &Vec<SessionFileInfo>,
    project_path: &str,
    spawned_at_ms: i64,
) -> (r: Option<String>)
    ensures
        match r {
            Some(p) => spec_select_session_file(files.deep_view(), project_path@, spawned_at_ms)
                == Some(p@),
            None => spec_select_session_file(files.deep_view(), project_path@, spawned_at_ms)
                is None,
        },
{
    let ghost fs = files.deep_view();
    let ghost kstart = spec_start_key(project_path@, spawned_at_ms);
    let ghost kmtime = spec_mtime_key(project_path@, spawned_at_ms);
    let norm_project = normalize_compare_path(project_path);
    let mut best_start: Option<(String, i64)> = None;
    let mut best_mtime: Option<(String, i64)> = None;
    let mut i: usize = 0;
    proof {
        assert(fs.take(0) =~= Seq::<SessionFileInfoModel>::empty());
        assert(files@.len() == fs.len());
    }
    while i < files.len()
        invariant
            i <= files@.len(),
            files@.len() == fs.len(),
            fs == files.deep_view(),
            norm_project@ == spec_normalize_compare_path(project_path@),
            kstart == spec_start_key(project_path@, spawned_at_ms),
            kmtime == spec_mtime_key(project_path@, spawned_at_ms),
            match best_start {
                Some(b) => spec_best_by(fs.take(i as int), kstart) == Some((b.0@, b.1)),
                None => spec_best_by(fs.take(i as int), kstart) is None,
            },
            match best_mtime {
                Some(b) => spec_best_by(fs.take(i as int), kmtime) == Some((b.0@, b.1)),
                None => spec_best_by(fs.take(i as int), kmtime) is None,
            },
        decreases files@.len() - i,
    {
        proof {
            assert(files@[i as int].deep_view() == fs[i as int]);
            assert(fs.take(i as int + 1).drop_last() =~= fs.take(i as int));
            assert(fs.take(i as int + 1).last() == fs[i as int]);
        }
        let f = &files[i];
        let norm_cwd = normalize_compare_path(f.cwd.as_str());
        let matches = norm_cwd == norm_project;
        if matches && f.started_ms >= spawned_at_ms {
            proof {
                assert(kstart(fs[i as int]) == Some(fs[i as int].started_ms));
                assert(kmtime(fs[i as int]) is None);
            }
            let take_it = match &best_start {
                Some(b) => f.started_ms < b.1,
                None => true,
            };
            if take_it {
                best_start = Some((f.path.clone(), f.started_ms));
            }
        } else if matches && f.started_ms < spawned_at_ms {
            proof {
                assert(kstart(fs[i as int]) is None);
            }
            match f.mtime_ms {
                Some(mt) => {
                    if mt >= spawned_at_ms {
                        proof {
                            assert(kmtime(fs[i as int]) == Some(mt));
                        }
                        let take_it = match &best_mtime {
                            Some(b) => mt < b.1,
                            None => true,
                        };
                        if take_it {
                            best_mtime = Some((f.path.clone(), mt));
                        }
                    } else {
                        proof {
                            assert(kmtime(fs[i as int]) is None);
                        }
                    }
                },
                None => {
                    proof {
                        assert(kmtime(fs[i as int]) is None);
                    }
                },
            }
        } else {
            proof {
                assert(kstart(fs[i as int]) is None);
                assert(kmtime(fs[i as int]) is None);
            }
        }
        i += 1;
    }
    proof {
        assert(fs.take(fs.len() as int) =~= fs);
    }
    match best_start {
        Some(b) => Some(b.0),
        None => match best_mtime {
            Some(b) => Some(b.0),
            None => None,
        },
    }
}


} // verus!
