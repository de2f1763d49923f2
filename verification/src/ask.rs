//! The sv-ask block: agent-led questions answered at the block. One tag;
//! `role="close"` renders the round's finish control. Everything here is
//! presentation: answers are drafts in the reader's browser until the finish
//! press, which submits one comment for the whole round through the ordinary
//! comment machinery.

use vstd::prelude::*;

use crate::format::{attr_lookup, Block, BlockV};
use crate::render::{markdown_html, markdown_opts, preformatted, preformatted_spec, push_warnings, warnings_html};
use crate::text::{
    chars_of, concat, dec, esc_text, join_lines, join_lines_of, lines, lines_of, parse_u64_range,
    parse_unsigned, push_char, push_str, push_text_escaped, push_dec, push_usize, starts_with,
    str_eq, string_of, string_of_range, trim, trim_end_pos, trim_start_pos, views,
};

verus! {

/// The close vocabulary, in display order. The chosen verdict leads the
/// round comment's first line, so this list is part of the round contract.
pub const VERDICTS: [&'static str; 2] = ["approved", "revise"];

// ---- trimming a slice of characters ------------------------------------------------

fn trim_bounds(v: &Vec<char>, lo: usize, hi: usize) -> (r: (usize, usize))
    requires
        lo <= hi <= v.len(),
    ensures
        lo <= r.0 <= r.1 <= hi,
        trim(v@.subrange(lo as int, hi as int)) == v@.subrange(r.0 as int, r.1 as int),
{
    let te = trim_end_pos(v, lo, hi);
    let ts = trim_start_pos(v, lo, te);
    (ts, te)
}

// ---- the round ---------------------------------------------------------------------

/// The round a block belongs to: missing means round 1 (the common one-round
/// page shouldn't have to say so); anything but a positive integer is no
/// round at all.
pub open spec fn round_of(b: BlockV) -> Option<nat> {
    match attr_lookup(b.attrs, "round"@) {
        None => Some(1),
        Some(r) => match parse_unsigned(trim(r), u64::MAX as nat) {
            Some(n) => if n >= 1 {
                Some(n)
            } else {
                None
            },
            None => None,
        },
    }
}

fn round(b: &Block) -> (r: Option<u64>)
    ensures
        r matches Some(n) ==> round_of(b@) == Some(n as nat),
        r is None ==> round_of(b@) is None,
{
    match b.attr("round") {
        None => Some(1),
        Some(r) => {
            let v = chars_of(r);
            let (a, z) = trim_bounds(&v, 0, v.len());
            assert(v@.subrange(0, v@.len() as int) =~= v@);
            match parse_u64_range(&v, a, z) {
                Some(n) => if n >= 1 {
                    Some(n)
                } else {
                    None
                },
                None => None,
            }
        },
    }
}

// ---- degraded blocks ---------------------------------------------------------------

pub open spec fn degraded_spec(msg: Seq<char>) -> Seq<char> {
    "<p class=\"sv-degraded-note\">"@ + msg + "</p>"@
}

/// A visible note in place of the block's controls.
pub fn degraded(msg: &str) -> (r: String)
    ensures
        r@ == degraded_spec(msg@),
{
    let mut r = String::new();
    push_str(&mut r, "<p class=\"sv-degraded-note\">");
    push_str(&mut r, msg);
    push_str(&mut r, "</p>");
    r
}

/// A malformed block: the note, then the body kept readable.
pub open spec fn degraded_block(id: Seq<char>, b: BlockV, note: Seq<char>) -> Seq<char> {
    "<section class=\"sv-block sv-ask sv-degraded\" data-block=\""@ + id
        + "\" data-type=\"sv-ask\">"@ + warnings_html(b.warnings) + degraded_spec(note)
        + preformatted_spec(b.body) + "</section>"@
}

fn degraded_block_of(id: &str, b: &Block, note: &str) -> (r: String)
    ensures
        r@ == degraded_block(id@, b@, note@),
{
    let mut r = String::new();
    push_str(&mut r, "<section class=\"sv-block sv-ask sv-degraded\" data-block=\"");
    push_str(&mut r, id);
    push_str(&mut r, "\" data-type=\"sv-ask\">");
    push_warnings(&mut r, &b.warnings);
    push_str(&mut r, degraded(note).as_str());
    push_str(&mut r, preformatted(b.body.as_str()).as_str());
    push_str(&mut r, "</section>");
    r
}

// ---- questions ---------------------------------------------------------------------

/// A column-0 `- ` line with something after it: an option, not prose.
pub open spec fn is_option_line(l: Seq<char>) -> bool {
    starts_with(l, "- "@) && trim(l.skip(2)).len() > 0
}

/// An option line's label, and whether it is the agent's suggestion (a
/// `- * ` line): badged and pre-selected.
pub open spec fn option_of(l: Seq<char>) -> (Seq<char>, bool) {
    let rest = trim(l.skip(2));
    if starts_with(rest, "* "@) && trim(rest.skip(2)).len() > 0 {
        (trim(rest.skip(2)), true)
    } else {
        (rest, false)
    }
}

/// The question's prose: every line that is not an option.
pub open spec fn prose_lines(ls: Seq<Seq<char>>) -> Seq<Seq<char>>
    decreases ls.len(),
{
    if ls.len() == 0 {
        ls
    } else if is_option_line(ls.last()) {
        prose_lines(ls.drop_last())
    } else {
        prose_lines(ls.drop_last()).push(ls.last())
    }
}

/// The options, in order.
pub open spec fn options_of(ls: Seq<Seq<char>>) -> Seq<(Seq<char>, bool)>
    decreases ls.len(),
{
    if ls.len() == 0 {
        Seq::empty()
    } else if is_option_line(ls.last()) {
        options_of(ls.drop_last()).push(option_of(ls.last()))
    } else {
        options_of(ls.drop_last())
    }
}

pub open spec fn option_html(ty: Seq<char>, id: Seq<char>, i: nat, o: (Seq<char>, bool)) -> Seq<char> {
    "<label class=\"sv-ask-opt\"><input type=\""@ + ty + "\" name=\"sv-ask-"@ + id + "\" value=\""@
        + dec(i) + "\""@ + (if o.1 { " checked"@ } else { Seq::empty() }) + "><span>"@ + esc_text(
        o.0,
    ) + "</span>"@ + (if o.1 {
        "<span class=\"sv-ask-rec\">suggested</span>"@
    } else {
        Seq::empty()
    }) + "</label>"@
}

pub open spec fn options_html(ty: Seq<char>, id: Seq<char>, os: Seq<(Seq<char>, bool)>) -> Seq<char> {
    if os.len() == 0 {
        Seq::empty()
    } else {
        "<div class=\"sv-ask-options\">"@ + concat(
            Seq::new(os.len(), |i: int| option_html(ty, id, i as nat, os[i])),
        ) + "</div>"@
    }
}

/// A question: body markdown, with every option line lifted out as an
/// enumerated option (checkboxes for `pick="many"`, radios otherwise), plus
/// the free-text rider every question carries.
pub open spec fn question_spec(id: Seq<char>, b: BlockV, round: nat) -> Seq<char> {
    let ls = lines(b.body);
    let many = attr_lookup(b.attrs, "pick"@) == Some("many"@);
    let ty = if many {
        "checkbox"@
    } else {
        "radio"@
    };
    "<section class=\"sv-block sv-ask\" data-block=\""@ + id
        + "\" data-type=\"sv-ask\" data-sv-round=\""@ + dec(round) + "\">"@ + warnings_html(
        b.warnings,
    ) + "<div class=\"sv-ask-q\">"@ + markdown_html(join_lines(prose_lines(ls)), None) + "</div>"@
        + options_html(ty, id, options_of(ls))
        + "<textarea class=\"sv-ask-rider\" rows=\"2\" placeholder=\"free text — rides along with your answer\"></textarea></section>"@
}

/// Classify one line: `Some((label, suggested))` for an option line.
fn classify(l: &Vec<char>) -> (r: Option<(String, bool)>)
    ensures
        r is Some == is_option_line(l@),
        r matches Some(o) ==> (o.0@, o.1) == option_of(l@),
{
    if l.len() < 2 || l[0] != '-' || l[1] != ' ' {
        proof {
            reveal_strlit("- ");
            if l@.len() >= 2 {
                assert(l@.subrange(0, 2)[0] == l@[0]);
                assert(l@.subrange(0, 2)[1] == l@[1]);
            }
        }
        return None;
    }
    assert(l@.subrange(0, 2) =~= "- "@) by {
        reveal_strlit("- ");
    }
    assert(l@.skip(2) =~= l@.subrange(2, l@.len() as int));
    let (a, z) = trim_bounds(l, 2, l.len());
    if a == z {
        return None;
    }
    let ghost rest = l@.subrange(a as int, z as int);
    if z - a >= 2 && l[a] == '*' && l[a + 1] == ' ' {
        assert(rest.subrange(0, 2) =~= "* "@) by {
            reveal_strlit("* ");
        }
        assert(rest.skip(2) =~= l@.subrange(a + 2, z as int));
        let (c, d) = trim_bounds(l, a + 2, z);
        if c < d {
            return Some((string_of_range(l, c, d), true));
        }
    } else {
        proof {
            reveal_strlit("* ");
            if rest.len() >= 2 {
                assert(rest.subrange(0, 2)[0] == l@[a as int]);
                assert(rest.subrange(0, 2)[1] == l@[a + 1]);
            }
        }
    }
    Some((string_of_range(l, a, z), false))
}

fn push_option(out: &mut String, ty: &str, id: &str, i: usize, o: &(String, bool))
    ensures
        final(out)@ == old(out)@ + option_html(ty@, id@, i as nat, (o.0@, o.1)),
{
    push_str(out, "<label class=\"sv-ask-opt\"><input type=\"");
    push_str(out, ty);
    push_str(out, "\" name=\"sv-ask-");
    push_str(out, id);
    push_str(out, "\" value=\"");
    push_usize(out, i);
    push_str(out, "\"");
    if o.1 {
        push_str(out, " checked");
    }
    push_str(out, "><span>");
    push_text_escaped(out, o.0.as_str());
    push_str(out, "</span>");
    if o.1 {
        push_str(out, "<span class=\"sv-ask-rec\">suggested</span>");
    }
    push_str(out, "</label>");
}

pub fn question(id: &str, b: &Block, round: u64) -> (r: String)
    ensures
        r@ == question_spec(id@, b@, round as nat),
{
    let many = match b.attr("pick") {
        Some(p) => str_eq(p, "many"),
        None => false,
    };
    let cv = chars_of(b.body.as_str());
    let ls = lines_of(&cv);
    let ghost lv = views(ls@);
    let mut prose: Vec<Vec<char>> = Vec::new();
    let mut options: Vec<(String, bool)> = Vec::new();
    let mut i: usize = 0;
    assert(lv.take(0) =~= Seq::<Seq<char>>::empty());
    assert(views(prose@) =~= prose_lines(lv.take(0)));
    while i < ls.len()
        invariant
            i <= ls.len(),
            lv == views(ls@),
            views(prose@) == prose_lines(lv.take(i as int)),
            options@.map_values(|o: (String, bool)| (o.0@, o.1)) == options_of(lv.take(i as int)),
        decreases ls.len() - i,
    {
        assert(lv.take(i + 1).drop_last() =~= lv.take(i as int));
        assert(lv.take(i + 1).last() == ls@[i as int]@);
        let ghost po = options@;
        let ghost pp = prose@;
        match classify(&ls[i]) {
            Some(o) => {
                options.push(o);
                assert(options@.map_values(|o: (String, bool)| (o.0@, o.1)) =~= po.map_values(
                    |o: (String, bool)| (o.0@, o.1),
                ).push(option_of(ls@[i as int]@)));
            },
            None => {
                prose.push(crate::text::slice_of(&ls[i], 0, ls[i].len()));
                assert(ls@[i as int]@.subrange(0, ls@[i as int]@.len() as int) =~= ls@[i as int]@);
                assert(views(prose@) =~= views(pp).push(ls@[i as int]@));
            },
        }
        i = i + 1;
    }
    assert(lv.take(ls.len() as int) =~= lv);
    assert(lv == lines(b.body@));
    let joined = join_lines_of(&prose, 0, prose.len());
    assert(views(prose@).subrange(0, prose@.len() as int) =~= views(prose@));
    let q = markdown_opts(string_of(&joined).as_str(), None);
    let ty = if many { "checkbox" } else { "radio" };
    let mut r = String::new();
    push_str(&mut r, "<section class=\"sv-block sv-ask\" data-block=\"");
    push_str(&mut r, id);
    push_str(&mut r, "\" data-type=\"sv-ask\" data-sv-round=\"");
    push_dec(&mut r, round);
    push_str(&mut r, "\">");
    push_warnings(&mut r, &b.warnings);
    push_str(&mut r, "<div class=\"sv-ask-q\">");
    push_str(&mut r, q.as_str());
    push_str(&mut r, "</div>");
    let ghost ov = options@.map_values(|o: (String, bool)| (o.0@, o.1));
    if options.len() > 0 {
        push_str(&mut r, "<div class=\"sv-ask-options\">");
        let ghost items = Seq::new(ov.len(), |i: int| option_html(ty@, id@, i as nat, ov[i]));
        let ghost start = r@;
        let mut k: usize = 0;
        assert(items.take(0) =~= Seq::<Seq<char>>::empty());
        while k < options.len()
            invariant
                k <= options.len(),
                ov == options@.map_values(|o: (String, bool)| (o.0@, o.1)),
                items == Seq::new(ov.len(), |i: int| option_html(ty@, id@, i as nat, ov[i])),
                r@ == start + concat(items.take(k as int)),
            decreases options.len() - k,
        {
            push_option(&mut r, ty, id, k, &options[k]);
            proof {
                crate::text::lemma_concat_take(items, k as int);
            }
            k = k + 1;
        }
        assert(items.take(options.len() as int) =~= items);
        push_str(&mut r, "</div>");
    }
    push_str(
        &mut r,
        "<textarea class=\"sv-ask-rider\" rows=\"2\" placeholder=\"free text — rides along with your answer\"></textarea></section>",
    );
    r
}

// ---- the close control -------------------------------------------------------------

pub open spec fn verdict_html(id: Seq<char>, v: Seq<char>) -> Seq<char> {
    "<label class=\"sv-ask-opt sv-ask-verdict\"><input type=\"radio\" name=\"sv-ask-"@ + id
        + "\" value=\""@ + v + "\"><span>"@ + v + "</span></label>"@
}

fn push_verdict(out: &mut String, id: &str, v: &str)
    ensures
        final(out)@ == old(out)@ + verdict_html(id@, v@),
{
    push_str(out, "<label class=\"sv-ask-opt sv-ask-verdict\"><input type=\"radio\" name=\"sv-ask-");
    push_str(out, id);
    push_str(out, "\" value=\"");
    push_str(out, v);
    push_str(out, "\"><span>");
    push_str(out, v);
    push_str(out, "</span></label>");
}

/// The round's finish control: the close vocabulary, an overall note, and a
/// send button that stays disabled until a verdict is picked.
pub open spec fn close_spec(id: Seq<char>, b: BlockV, round: nat) -> Seq<char> {
    let preamble = if trim(b.body).len() == 0 {
        Seq::empty()
    } else {
        "<div class=\"sv-ask-q\">"@ + markdown_html(b.body, None) + "</div>"@
    };
    "<section class=\"sv-block sv-ask sv-ask-close\" data-block=\""@ + id
        + "\" data-type=\"sv-ask\" data-sv-round=\""@ + dec(round)
        + "\" data-sv-role=\"close\">"@ + warnings_html(b.warnings) + preamble
        + "<div class=\"sv-ask-verdicts\">"@ + verdict_html(id, "approved"@) + verdict_html(
        id,
        "revise"@,
    ) + "</div>"@
        + "<textarea class=\"sv-ask-rider\" rows=\"2\" placeholder=\"closing note (optional)\"></textarea>"@
        + "<div class=\"sv-ask-actions\">"@
        + "<button type=\"button\" class=\"sv-ask-send btn btn-sm btn-primary\" disabled>send round "@
        + dec(round) + "</button>"@ + "</div>"@ + "<p class=\"sv-ask-sent\" hidden></p>"@
        + "</section>"@
}

pub fn close(id: &str, b: &Block, round: u64) -> (r: String)
    ensures
        r@ == close_spec(id@, b@, round as nat),
{
    let cv = chars_of(b.body.as_str());
    let (a, z) = trim_bounds(&cv, 0, cv.len());
    assert(cv@.subrange(0, cv@.len() as int) =~= cv@);
    let mut r = String::new();
    push_str(&mut r, "<section class=\"sv-block sv-ask sv-ask-close\" data-block=\"");
    push_str(&mut r, id);
    push_str(&mut r, "\" data-type=\"sv-ask\" data-sv-round=\"");
    push_dec(&mut r, round);
    push_str(&mut r, "\" data-sv-role=\"close\">");
    push_warnings(&mut r, &b.warnings);
    if a < z {
        push_str(&mut r, "<div class=\"sv-ask-q\">");
        push_str(&mut r, markdown_opts(b.body.as_str(), None).as_str());
        push_str(&mut r, "</div>");
    }
    push_str(&mut r, "<div class=\"sv-ask-verdicts\">");
    push_verdict(&mut r, id, "approved");
    push_verdict(&mut r, id, "revise");
    push_str(&mut r, "</div>");
    push_str(
        &mut r,
        "<textarea class=\"sv-ask-rider\" rows=\"2\" placeholder=\"closing note (optional)\"></textarea>",
    );
    push_str(&mut r, "<div class=\"sv-ask-actions\">");
    push_str(&mut r, "<button type=\"button\" class=\"sv-ask-send btn btn-sm btn-primary\" disabled>send round ");
    push_dec(&mut r, round);
    push_str(&mut r, "</button>");
    push_str(&mut r, "</div>");
    push_str(&mut r, "<p class=\"sv-ask-sent\" hidden></p>");
    push_str(&mut r, "</section>");
    r
}

// ---- the block ---------------------------------------------------------------------

/// Render an ask block. Never errors: a malformed round or role degrades
/// visibly with the body kept readable, same law as every other block.
pub open spec fn block_spec(id: Seq<char>, b: BlockV) -> Seq<char> {
    match round_of(b) {
        None => degraded_block(
            id,
            b,
            "round=\""@ + match attr_lookup(b.attrs, "round"@) {
                Some(r) => r,
                None => Seq::empty(),
            } + "\" is not a positive integer"@,
        ),
        Some(n) => match attr_lookup(b.attrs, "role"@) {
            None => question_spec(id, b, n),
            Some(role) => if role == "close"@ {
                close_spec(id, b, n)
            } else {
                degraded_block(
                    id,
                    b,
                    "role=\""@ + esc_text(role) + "\" — the only role is \"close\""@,
                )
            },
        },
    }
}

pub fn block(id: &str, b: &Block) -> (r: String)
    ensures
        r@ == block_spec(id@, b@),
{
    match round(b) {
        None => {
            let mut note = String::new();
            push_str(&mut note, "round=\"");
            match b.attr("round") {
                Some(r) => push_str(&mut note, r),
                None => {},
            }
            push_str(&mut note, "\" is not a positive integer");
            degraded_block_of(id, b, note.as_str())
        },
        Some(n) => match b.attr("role") {
            None => question(id, b, n),
            Some(role) => {
                if str_eq(role, "close") {
                    close(id, b, n)
                } else {
                    let mut note = String::new();
                    push_str(&mut note, "role=\"");
                    push_text_escaped(&mut note, role);
                    push_str(&mut note, "\" — the only role is \"close\"");
                    degraded_block_of(id, b, note.as_str())
                }
            },
        },
    }
}


/// A close control with something to say shows it first: when the body is
/// not blank, the control holds the body rendered as markdown inside
/// `<div class="sv-ask-q">`, and the verdicts come right after it.
pub proof fn lemma_close_shows_its_body(id: Seq<char>, b: BlockV, round: nat)
    requires
        trim(b.body).len() > 0,
    ensures
        exists|pre: Seq<char>, post: Seq<char>|
            close_spec(id, b, round) == pre + ("<div class=\"sv-ask-q\">"@ + markdown_html(b.body, None)
                + "</div>"@) + "<div class=\"sv-ask-verdicts\">"@ + post,
{
    let pre = "<section class=\"sv-block sv-ask sv-ask-close\" data-block=\""@ + id
        + "\" data-type=\"sv-ask\" data-sv-round=\""@ + dec(round)
        + "\" data-sv-role=\"close\">"@ + warnings_html(b.warnings);
    let q = "<div class=\"sv-ask-q\">"@ + markdown_html(b.body, None) + "</div>"@;
    let post = verdict_html(id, "approved"@) + verdict_html(id, "revise"@) + "</div>"@
        + "<textarea class=\"sv-ask-rider\" rows=\"2\" placeholder=\"closing note (optional)\"></textarea>"@
        + "<div class=\"sv-ask-actions\">"@
        + "<button type=\"button\" class=\"sv-ask-send btn btn-sm btn-primary\" disabled>send round "@
        + dec(round) + "</button>"@ + "</div>"@ + "<p class=\"sv-ask-sent\" hidden></p>"@
        + "</section>"@;
    assert(close_spec(id, b, round) =~= pre + q + "<div class=\"sv-ask-verdicts\">"@ + post);
}


/// A close control with a blank body shows no question: right after the
/// block's head and warnings come the verdicts.
pub proof fn lemma_blank_close_has_no_question(id: Seq<char>, b: BlockV, round: nat)
    requires
        trim(b.body).len() == 0,
    ensures
        exists|post: Seq<char>|
            close_spec(id, b, round) == "<section class=\"sv-block sv-ask sv-ask-close\" data-block=\""@ + id
                + "\" data-type=\"sv-ask\" data-sv-round=\""@ + dec(round)
                + "\" data-sv-role=\"close\">"@ + warnings_html(b.warnings) + "<div class=\"sv-ask-verdicts\">"@ + post,
{
    let pre = "<section class=\"sv-block sv-ask sv-ask-close\" data-block=\""@ + id
        + "\" data-type=\"sv-ask\" data-sv-round=\""@ + dec(round)
        + "\" data-sv-role=\"close\">"@ + warnings_html(b.warnings);
    let post = verdict_html(id, "approved"@) + verdict_html(id, "revise"@) + "</div>"@
        + "<textarea class=\"sv-ask-rider\" rows=\"2\" placeholder=\"closing note (optional)\"></textarea>"@
        + "<div class=\"sv-ask-actions\">"@
        + "<button type=\"button\" class=\"sv-ask-send btn btn-sm btn-primary\" disabled>send round "@
        + dec(round) + "</button>"@ + "</div>"@ + "<p class=\"sv-ask-sent\" hidden></p>"@
        + "</section>"@;
    assert(close_spec(id, b, round) =~= pre + "<div class=\"sv-ask-verdicts\">"@ + post);
}

} // verus!
