//! Self-contained HTML views of the diffs, for a person to read: one
//! standalone page (inline CSS, no external assets) rendering the same
//! structures as the text views. Every fragment, name and preview is
//! escaped before it lands in the page.

use vstd::prelude::*;

use crate::diff::{
    index_of, marker, sat_inc, section_rows, skipped_after, skipped_before, sort_by_line, with_status, ChildDiff,
    FileDiff, FormDiff, UnitDiff, UnitStatus,
};
use crate::linehash::{decimal, decimal_string};
use crate::text::{chars_of, push_char};
use crate::units::{evs, opt_str, DeepDiff, EntryV, UnitLens, UnitTreeDiff};

verus! {

// --- Escaping and the page -------------------------------------------------------------

/// One character as HTML text.
pub open spec fn esc_char(c: char) -> Seq<char> {
    if c == '&' {
        "&amp;"@
    } else if c == '<' {
        "&lt;"@
    } else if c == '>' {
        "&gt;"@
    } else if c == '"' {
        "&quot;"@
    } else {
        seq![c]
    }
}

/// `s` as HTML text: `&`, `<`, `>` and `"` escaped.
pub open spec fn esc_spec(s: Seq<char>) -> Seq<char>
    decreases s.len(),
{
    if s.len() == 0 {
        Seq::empty()
    } else {
        esc_spec(s.drop_last()) + esc_char(s.last())
    }
}

/// Append `s`, escaped, to `out`.
fn push_esc(out: &mut String, s: &str)
    ensures
        final(out)@ == old(out)@ + esc_spec(s@),
{
    let cs = chars_of(s);
    let ghost o = out@;
    let mut i: usize = 0;
    while i < cs.len()
        invariant
            i <= cs@.len(),
            cs@ == s@,
            out@ == o + esc_spec(cs@.take(i as int)),
        decreases cs.len() - i,
    {
        let c = cs[i];
        if c == '&' {
            out.append("&amp;");
        } else if c == '<' {
            out.append("&lt;");
        } else if c == '>' {
            out.append("&gt;");
        } else if c == '"' {
            out.append("&quot;");
        } else {
            push_char(out, c);
        }
        proof {
            let t = cs@.take(i + 1);
            assert(t.drop_last() == cs@.take(i as int));
            assert(t.last() == c);
        }
        i = i + 1;
    }
    assert(cs@.take(cs@.len() as int) == cs@);
}

/// The page's style sheet.
pub open spec fn html_style() -> Seq<char> {
    ":root{--add:#1a7f37;--add-bg:#e6f4ea;--del:#b3261e;--del-bg:#fbeae9;--chg:#8a5a00;--chg-bg:#fbf0d9;--ink:#1b1f24;--muted:#6a737d;--line:#e2e5ea;--bg:#f6f7f8}*{box-sizing:border-box}body{margin:0;background:var(--bg);color:var(--ink);font:14px/1.5 system-ui,-apple-system,Segoe UI,Roboto,sans-serif}.wrap{max-width:960px;margin:0 auto;padding:28px 20px}h1{font-size:20px;margin:0 0 4px}.sub{color:var(--muted);font-size:13px;margin-bottom:16px}.pills{display:flex;gap:8px;flex-wrap:wrap;margin-bottom:22px}.pill{font:600 12px ui-monospace,Menlo,monospace;padding:3px 10px;border-radius:999px;border:1px solid var(--line);background:#fff}.pill.add{color:var(--add);background:var(--add-bg);border-color:transparent}.pill.del{color:var(--del);background:var(--del-bg);border-color:transparent}.pill.chg{color:var(--chg);background:var(--chg-bg);border-color:transparent}.unit{background:#fff;border:1px solid var(--line);border-radius:10px;margin:0 0 14px;overflow:hidden}.uhead{display:flex;gap:8px;align-items:baseline;padding:10px 14px;border-bottom:1px solid var(--line);font:13px ui-monospace,Menlo,monospace}.uhead .mk{font-weight:700}.uhead .k{color:var(--muted)}.uhead .n{font-weight:600}.uhead .a{margin-left:auto;color:var(--muted);font-size:12px}.mk.add,.k.add{color:var(--add)}.mk.del,.k.del{color:var(--del)}.mk.chg{color:var(--chg)}.tree{margin:0;padding:12px 14px;font:12.5px/1.55 ui-monospace,Menlo,monospace;overflow-x:auto;white-space:pre}.row{white-space:pre}.row.add{color:var(--add)}.row.del{color:var(--del)}.row .rep-old{color:var(--del);text-decoration:line-through;text-decoration-color:#d9a} .row .rep-new{color:var(--add)}.row .arrow{color:var(--muted)}.row .lbl{color:var(--chg)}.ell{color:var(--muted)}.empty{color:var(--muted);padding:8px 14px;font-style:italic}footer{color:var(--muted);font:12px ui-monospace,Menlo,monospace;margin-top:8px}"@
}

/// A standalone page titled `title` around `body`.
pub open spec fn page_spec(title: Seq<char>, body: Seq<char>) -> Seq<char> {
    "<!doctype html>\n<html lang=\"en\"><head><meta charset=\"utf-8\"><meta name=\"viewport\" content=\"width=device-width,initial-scale=1\"><title>"@
        + esc_spec(title) + "</title><style>"@ + html_style() + "</style></head><body><div class=\"wrap\">"@ + body
        + "</div></body></html>\n"@
}

fn page(title: &str, body: &String) -> (s: String)
    ensures
        s@ == page_spec(title@, body@),
{
    let mut s = String::from_str(
        "<!doctype html>\n<html lang=\"en\"><head><meta charset=\"utf-8\"><meta name=\"viewport\" content=\"width=device-width,initial-scale=1\"><title>",
    );
    push_esc(&mut s, title);
    s.append("</title><style>");
    s.append(":root{--add:#1a7f37;--add-bg:#e6f4ea;--del:#b3261e;--del-bg:#fbeae9;--chg:#8a5a00;--chg-bg:#fbf0d9;--ink:#1b1f24;--muted:#6a737d;--line:#e2e5ea;--bg:#f6f7f8}*{box-sizing:border-box}body{margin:0;background:var(--bg);color:var(--ink);font:14px/1.5 system-ui,-apple-system,Segoe UI,Roboto,sans-serif}.wrap{max-width:960px;margin:0 auto;padding:28px 20px}h1{font-size:20px;margin:0 0 4px}.sub{color:var(--muted);font-size:13px;margin-bottom:16px}.pills{display:flex;gap:8px;flex-wrap:wrap;margin-bottom:22px}.pill{font:600 12px ui-monospace,Menlo,monospace;padding:3px 10px;border-radius:999px;border:1px solid var(--line);background:#fff}.pill.add{color:var(--add);background:var(--add-bg);border-color:transparent}.pill.del{color:var(--del);background:var(--del-bg);border-color:transparent}.pill.chg{color:var(--chg);background:var(--chg-bg);border-color:transparent}.unit{background:#fff;border:1px solid var(--line);border-radius:10px;margin:0 0 14px;overflow:hidden}.uhead{display:flex;gap:8px;align-items:baseline;padding:10px 14px;border-bottom:1px solid var(--line);font:13px ui-monospace,Menlo,monospace}.uhead .mk{font-weight:700}.uhead .k{color:var(--muted)}.uhead .n{font-weight:600}.uhead .a{margin-left:auto;color:var(--muted);font-size:12px}.mk.add,.k.add{color:var(--add)}.mk.del,.k.del{color:var(--del)}.mk.chg{color:var(--chg)}.tree{margin:0;padding:12px 14px;font:12.5px/1.55 ui-monospace,Menlo,monospace;overflow-x:auto;white-space:pre}.row{white-space:pre}.row.add{color:var(--add)}.row.del{color:var(--del)}.row .rep-old{color:var(--del);text-decoration:line-through;text-decoration-color:#d9a} .row .rep-new{color:var(--add)}.row .arrow{color:var(--muted)}.row .lbl{color:var(--chg)}.ell{color:var(--muted)}.empty{color:var(--muted);padding:8px 14px;font-style:italic}footer{color:var(--muted);font:12px ui-monospace,Menlo,monospace;margin-top:8px}");
    s.append("</style></head><body><div class=\"wrap\">");
    s.append(body.as_str());
    s.append("</div></body></html>\n");
    s
}

/// The summary pills: the changed, added and removed counts, and a pill for
/// the other top-level forms when they changed.
pub open spec fn pills_spec(changed: nat, added: nat, removed: nat, other: bool) -> Seq<char> {
    "<div class=\"pills\"><span class=\"pill chg\">~ "@ + decimal(changed) + " changed</span><span class=\"pill add\">+ "@
        + decimal(added) + " added</span><span class=\"pill del\">- "@ + decimal(removed) + " removed</span>"@ + (
    if other {
        "<span class=\"pill\">! other top-level forms</span>"@
    } else {
        Seq::empty()
    }) + "</div>"@
}

fn push_pills(out: &mut String, changed: usize, added: usize, removed: usize, other: bool)
    ensures
        final(out)@ == old(out)@ + pills_spec(changed as nat, added as nat, removed as nat, other),
{
    out.append("<div class=\"pills\"><span class=\"pill chg\">~ ");
    out.append(decimal_string(changed).as_str());
    out.append(" changed</span><span class=\"pill add\">+ ");
    out.append(decimal_string(added).as_str());
    out.append(" added</span><span class=\"pill del\">- ");
    out.append(decimal_string(removed).as_str());
    out.append(" removed</span>");
    if other {
        out.append("<span class=\"pill\">! other top-level forms</span>");
    }
    out.append("</div>");
}

/// A signature after a name: a space and the escaped signature.
pub open spec fn sig_html(sig: Option<Seq<char>>) -> Seq<char> {
    match sig {
        Some(s) => " "@ + esc_spec(s),
        None => Seq::empty(),
    }
}

fn push_sig(out: &mut String, sig: &Option<String>)
    ensures
        final(out)@ == old(out)@ + sig_html(match *sig {
            Some(s) => Some(s@),
            None => None,
        }),
{
    match sig {
        Some(s) => {
            out.append(" ");
            push_esc(out, s.as_str());
        },
        None => {},
    }
}

pub open spec fn opt_seq(o: Option<String>) -> Option<Seq<char>> {
    match o {
        Some(s) => Some(s@),
        None => None,
    }
}

// --- The definition-level map ----------------------------------------------------------

/// The class of a status's marker.
pub open spec fn status_class(st: UnitStatus) -> Seq<char> {
    match st {
        UnitStatus::Changed => "chg"@,
        UnitStatus::Added => "add"@,
        UnitStatus::Removed => "del"@,
    }
}

/// One unit of the map.
pub open spec fn map_row(u: UnitDiff) -> Seq<char> {
    "<div class=\"unit\"><div class=\"uhead\"><span class=\"mk "@ + status_class(u.status) + "\">"@ + seq![marker(u.status)]
        + "</span><span class=\"k\">"@ + esc_spec(u.kind@) + "</span> <span class=\"n\">"@ + esc_spec(u.name@) + "</span>"@
        + sig_html(opt_seq(u.signature)) + "<span class=\"a\">"@ + decimal(u.line as nat) + ":"@ + esc_spec(u.hash@)
        + "</span></div></div>"@
}

pub open spec fn map_rows(us: Seq<UnitDiff>, rows: Seq<usize>, k: int) -> Seq<char>
    decreases k,
{
    if k <= 0 || k > rows.len() {
        Seq::empty()
    } else {
        map_rows(us, rows, k - 1) + map_row(us[rows[k - 1] as int])
    }
}

/// A status's units, by line.
pub open spec fn map_section(us: Seq<UnitDiff>, st: UnitStatus) -> Seq<char> {
    let rows = sort_by_line(us, with_status(us, st, us.len() as int));
    map_rows(us, rows, rows.len() as int)
}

/// The HTML page of a file diff: a header, the summary pills, then the
/// changed, added and removed units (each group by line), or a note that
/// nothing changed.
pub open spec fn diff_html_spec(d: FileDiff) -> Seq<char> {
    let us = d.units@;
    let head = "<h1>Structural diff</h1><div class=\"sub\">definition-level map</div>"@ + pills_spec(
        with_status(us, UnitStatus::Changed, us.len() as int).len(),
        with_status(us, UnitStatus::Added, us.len() as int).len(),
        with_status(us, UnitStatus::Removed, us.len() as int).len(),
        d.other_forms_changed,
    );
    let body = if us.len() == 0 && !d.other_forms_changed {
        head + "<div class=\"empty\">No structural change.</div>"@
    } else {
        head + map_section(us, UnitStatus::Changed) + map_section(us, UnitStatus::Added) + map_section(
            us,
            UnitStatus::Removed,
        )
    };
    page_spec("Structural diff"@, body)
}

fn count_status(units: &Vec<UnitDiff>, st: UnitStatus) -> (n: usize)
    ensures
        n == with_status(units@, st, units@.len() as int).len(),
{
    let mut n: usize = 0;
    let mut k: usize = 0;
    while k < units.len()
        invariant
            k <= units@.len(),
            n == with_status(units@, st, k as int).len(),
            n <= k,
        decreases units.len() - k,
    {
        if units[k].status == st {
            n = n + 1;
        }
        k = k + 1;
    }
    n
}

fn push_map_row(out: &mut String, u: &UnitDiff)
    ensures
        final(out)@ == old(out)@ + map_row(*u),
{
    let ghost o0 = out@;
    out.append("<div class=\"unit\"><div class=\"uhead\"><span class=\"mk ");
    let (cls, mk) = match u.status {
        UnitStatus::Changed => ("chg", '~'),
        UnitStatus::Added => ("add", '+'),
        UnitStatus::Removed => ("del", '-'),
    };
    out.append(cls);
    out.append("\">");
    push_char(out, mk);
    out.append("</span><span class=\"k\">");
    push_esc(out, u.kind.as_str());
    out.append("</span> <span class=\"n\">");
    push_esc(out, u.name.as_str());
    out.append("</span>");
    push_sig(out, &u.signature);
    out.append("<span class=\"a\">");
    out.append(decimal_string(u.line as usize).as_str());
    out.append(":");
    push_esc(out, u.hash.as_str());
    out.append("</span></div></div>");
    assert(out@ =~= o0 + map_row(*u));
}

fn push_map_section(units: &Vec<UnitDiff>, st: UnitStatus, out: &mut String)
    ensures
        final(out)@ == old(out)@ + map_section(units@, st),
{
    let ghost us = units@;
    let rows = section_rows(units, st);
    let ghost head = out@;
    let mut i: usize = 0;
    while i < rows.len()
        invariant
            us == units@,
            forall|q: int| 0 <= q < rows@.len() ==> rows@[q] < us.len(),
            i <= rows@.len(),
            out@ == head + map_rows(us, rows@, i as int),
        decreases rows.len() - i,
    {
        push_map_row(out, &units[rows[i]]);
        i = i + 1;
    }
}

/// Render a file diff as a standalone HTML page (the definition-level map).
pub fn diff_html(diff: &FileDiff) -> (s: String)
    ensures
        s@ == diff_html_spec(*diff),
{
    let mut b = String::from_str("<h1>Structural diff</h1><div class=\"sub\">definition-level map</div>");
    let c = count_status(&diff.units, UnitStatus::Changed);
    let a = count_status(&diff.units, UnitStatus::Added);
    let r = count_status(&diff.units, UnitStatus::Removed);
    push_pills(&mut b, c, a, r, diff.other_forms_changed);
    if diff.units.len() == 0 && !diff.other_forms_changed {
        b.append("<div class=\"empty\">No structural change.</div>");
    } else {
        push_map_section(&diff.units, UnitStatus::Changed, &mut b);
        push_map_section(&diff.units, UnitStatus::Added, &mut b);
        push_map_section(&diff.units, UnitStatus::Removed, &mut b);
    }
    page("Structural diff", &b)
}


// --- Form diffs ---------------------------------------------------------------------------

/// The padding style for depth `d`: `pads[d]`, or none past its end. The
/// styles are given by the caller (their lengths are fractional `em`s).
pub open spec fn pad_style(pads: Seq<Seq<char>>, d: int) -> Seq<char> {
    if 0 <= d < pads.len() {
        pads[d]
    } else {
        Seq::empty()
    }
}

pub open spec fn pads_view(pads: &[String]) -> Seq<Seq<char>> {
    pads@.map_values(|p: String| p@)
}

/// An elision row at depth `d`.
pub open spec fn ell_row(pads: Seq<Seq<char>>, d: int) -> Seq<char> {
    "<div class=\"row ell\" style=\""@ + pad_style(pads, d) + "\">…</div>"@
}

/// The rows of a form diff at depth `depth`: a replace as one row `~ old ⇒
/// new`; a container as `(label`, its changed children one level deeper
/// (with `…` rows where unchanged children were skipped), and `)`.
pub open spec fn html_form(d: FormDiff, depth: int, pads: Seq<Seq<char>>) -> Seq<char>
    decreases d, 2int, 0int,
{
    match d {
        FormDiff::Replace { old, new } => "<div class=\"row\" style=\""@ + pad_style(pads, depth)
            + "\"><span class=\"mk chg\">~</span> <span class=\"rep-old\">"@ + esc_spec(old.text@)
            + "</span> <span class=\"arrow\">⇒</span> <span class=\"rep-new\">"@ + esc_spec(new.text@) + "</span></div>"@,
        FormDiff::Descend { label, child_count, children } => "<div class=\"row\" style=\""@ + pad_style(pads, depth)
            + "\">(<span class=\"lbl\">"@ + esc_spec(label@) + "</span></div>"@ + html_children(
            children@,
            sat_inc(depth),
            pads,
            children@.len() as int,
        ) + (if skipped_after(children@, child_count as int) {
            ell_row(pads, sat_inc(depth))
        } else {
            Seq::empty()
        }) + "<div class=\"row\" style=\""@ + pad_style(pads, depth) + "\">)</div>"@,
    }
}

pub open spec fn html_children(cs: Seq<ChildDiff>, depth: int, pads: Seq<Seq<char>>, k: int) -> Seq<char>
    decreases cs, 1int, k,
{
    if k <= 0 || k > cs.len() {
        Seq::empty()
    } else {
        html_children(cs, depth, pads, k - 1) + (if skipped_before(cs, k - 1) {
            ell_row(pads, depth)
        } else {
            Seq::empty()
        }) + html_child(cs[k - 1], depth, pads)
    }
}

pub open spec fn html_child(c: ChildDiff, depth: int, pads: Seq<Seq<char>>) -> Seq<char>
    decreases c, 0int, 0int,
{
    match c {
        ChildDiff::Added { frag, .. } => "<div class=\"row add\" style=\""@ + pad_style(pads, depth) + "\">+ "@ + esc_spec(
            frag.text@,
        ) + "</div>"@,
        ChildDiff::Removed { frag, .. } => "<div class=\"row del\" style=\""@ + pad_style(pads, depth) + "\">- "@
            + esc_spec(frag.text@) + "</div>"@,
        ChildDiff::Paired { diff, .. } => html_form(diff, depth, pads),
    }
}

fn push_pad_style(out: &mut String, pads: &[String], d: usize)
    ensures
        final(out)@ == old(out)@ + pad_style(pads_view(pads), d as int),
{
    if d < pads.len() {
        out.append(pads[d].as_str());
    }
}

fn push_ell(out: &mut String, pads: &[String], d: usize)
    ensures
        final(out)@ == old(out)@ + ell_row(pads_view(pads), d as int),
{
    let ghost o = out@;
    out.append("<div class=\"row ell\" style=\"");
    push_pad_style(out, pads, d);
    out.append("\">…</div>");
    assert(out@ =~= o + ell_row(pads_view(pads), d as int));
}

/// The opening row of a container at depth `depth`.
pub open spec fn open_row(label: Seq<char>, pads: Seq<Seq<char>>, depth: int) -> Seq<char> {
    "<div class=\"row\" style=\""@ + pad_style(pads, depth) + "\">(<span class=\"lbl\">"@ + esc_spec(label)
        + "</span></div>"@
}

/// The closing row of a container at depth `depth`.
pub open spec fn close_row(pads: Seq<Seq<char>>, depth: int) -> Seq<char> {
    "<div class=\"row\" style=\""@ + pad_style(pads, depth) + "\">)</div>"@
}

fn push_open_row(out: &mut String, label: &String, pads: &[String], depth: usize)
    ensures
        final(out)@ == old(out)@ + open_row(label@, pads_view(pads), depth as int),
{
    let ghost o0 = out@;
    out.append("<div class=\"row\" style=\"");
    push_pad_style(out, pads, depth);
    out.append("\">(<span class=\"lbl\">");
    push_esc(out, label.as_str());
    out.append("</span></div>");
    assert(out@ =~= o0 + open_row(label@, pads_view(pads), depth as int));
}

fn push_close_row(out: &mut String, pads: &[String], depth: usize)
    ensures
        final(out)@ == old(out)@ + close_row(pads_view(pads), depth as int),
{
    let ghost o0 = out@;
    out.append("<div class=\"row\" style=\"");
    push_pad_style(out, pads, depth);
    out.append("\">)</div>");
    assert(out@ =~= o0 + close_row(pads_view(pads), depth as int));
}

fn push_replace_row(out: &mut String, old_text: &String, new_text: &String, pads: &[String], depth: usize)
    ensures
        final(out)@ == old(out)@ + "<div class=\"row\" style=\""@ + pad_style(pads_view(pads), depth as int)
            + "\"><span class=\"mk chg\">~</span> <span class=\"rep-old\">"@ + esc_spec(old_text@)
            + "</span> <span class=\"arrow\">⇒</span> <span class=\"rep-new\">"@ + esc_spec(new_text@) + "</span></div>"@,
{
    let ghost o0 = out@;
    out.append("<div class=\"row\" style=\"");
    push_pad_style(out, pads, depth);
    out.append("\"><span class=\"mk chg\">~</span> <span class=\"rep-old\">");
    push_esc(out, old_text.as_str());
    out.append("</span> <span class=\"arrow\">⇒</span> <span class=\"rep-new\">");
    push_esc(out, new_text.as_str());
    out.append("</span></div>");
    assert(out@ =~= o0 + "<div class=\"row\" style=\""@ + pad_style(pads_view(pads), depth as int)
        + "\"><span class=\"mk chg\">~</span> <span class=\"rep-old\">"@ + esc_spec(old_text@)
        + "</span> <span class=\"arrow\">⇒</span> <span class=\"rep-new\">"@ + esc_spec(new_text@) + "</span></div>"@);
}

#[verifier::spinoff_prover]
#[verifier::rlimit(60)]
fn push_html_form(d: &FormDiff, depth: usize, pads: &[String], out: &mut String)
    ensures
        final(out)@ == old(out)@ + html_form(*d, depth as int, pads_view(pads)),
    decreases *d, 2int,
{
    let ghost pv = pads_view(pads);
    let ghost o0 = old(out)@;
    match d {
        FormDiff::Replace { old, new } => {
            push_replace_row(out, &old.text, &new.text, pads, depth);
            assert(out@ =~= o0 + html_form(*d, depth as int, pv));
        },
        FormDiff::Descend { label, child_count, children } => {
            let inner = depth.saturating_add(1);
            push_open_row(out, label, pads, depth);
            let ghost o1 = out@;
            proof {
                assert(decreases_to!(*d => (*d)->children));
                assert(decreases_to!(*children => children@));
            }
            push_html_children(children, inner, pads, out);
            let ghost o2 = out@;
            let after = if children.len() == 0 {
                *child_count > 0
            } else {
                let p = index_of(&children[children.len() - 1]);
                p < usize::MAX && p + 1 < *child_count
            };
            assert(after == skipped_after(children@, *child_count as int));
            if after {
                push_ell(out, pads, inner);
            }
            let ghost o3 = out@;
            push_close_row(out, pads, depth);
            proof {
                let ct = html_children(children@, sat_inc(depth as int), pv, children@.len() as int);
                let tail = if skipped_after(children@, *child_count as int) {
                    ell_row(pv, sat_inc(depth as int))
                } else {
                    Seq::empty()
                };
                assert(o1 == o0 + open_row(label@, pv, depth as int));
                assert(o2 == o1 + ct);
                assert(o3 == o2 + tail);
                assert(out@ == o3 + close_row(pv, depth as int));
                assert(html_form(*d, depth as int, pv) == open_row(label@, pv, depth as int) + ct + tail + close_row(
                    pv,
                    depth as int,
                ));
                assert(out@ =~= o0 + html_form(*d, depth as int, pv));
            }
        },
    }
}

fn push_html_children(children: &Vec<ChildDiff>, inner: usize, pads: &[String], out: &mut String)
    ensures
        final(out)@ == old(out)@ + html_children(children@, inner as int, pads_view(pads), children@.len() as int),
    decreases children@, 1int,
{
    let ghost pv = pads_view(pads);
    let ghost head = old(out)@;
    let mut k: usize = 0;
    assert(out@ == head + html_children(children@, inner as int, pv, 0));
    while k < children.len()
        invariant
            pv == pads_view(pads),
            k <= children@.len(),
            out@ == head + html_children(children@, inner as int, pv, k as int),
        decreases children.len() - k,
    {
        let idx = index_of(&children[k]);
        let g2 = if k == 0 {
            idx > 0
        } else {
            let p = index_of(&children[k - 1]);
            p < usize::MAX && idx > p + 1
        };
        assert(g2 == skipped_before(children@, k as int));
        let ghost o1 = out@;
        if g2 {
            push_ell(out, pads, inner);
        }
        let ghost o2 = out@;
        proof {
            assert(decreases_to!(children@ => children@[k as int]));
        }
        push_html_child(&children[k], inner, pads, out);
        proof {
            let cs = children@;
            let mark = if skipped_before(cs, k as int) {
                ell_row(pv, inner as int)
            } else {
                Seq::empty()
            };
            assert(html_children(cs, inner as int, pv, k + 1) == html_children(cs, inner as int, pv, k as int) + mark
                + html_child(cs[k as int], inner as int, pv));
            assert(o2 == o1 + mark);
            assert(out@ =~= head + html_children(cs, inner as int, pv, k + 1));
        }
        k = k + 1;
    }
}

fn push_html_child(c: &ChildDiff, depth: usize, pads: &[String], out: &mut String)
    ensures
        final(out)@ == old(out)@ + html_child(*c, depth as int, pads_view(pads)),
    decreases *c, 0int,
{
    let ghost o0 = out@;
    match c {
        ChildDiff::Added { frag, .. } => {
            out.append("<div class=\"row add\" style=\"");
            push_pad_style(out, pads, depth);
            out.append("\">+ ");
            push_esc(out, frag.text.as_str());
            out.append("</div>");
            assert(out@ =~= o0 + html_child(*c, depth as int, pads_view(pads)));
        },
        ChildDiff::Removed { frag, .. } => {
            out.append("<div class=\"row del\" style=\"");
            push_pad_style(out, pads, depth);
            out.append("\">- ");
            push_esc(out, frag.text.as_str());
            out.append("</div>");
            assert(out@ =~= o0 + html_child(*c, depth as int, pads_view(pads)));
        },
        ChildDiff::Paired { diff, .. } => push_html_form(diff, depth, pads, out),
    }
}

/// The page of a single form diff.
pub open spec fn form_diff_html_spec(d: FormDiff, pads: Seq<Seq<char>>) -> Seq<char> {
    page_spec(
        "Structural diff"@,
        "<h1>Structural diff</h1><div class=\"sub\">two forms</div><div class=\"unit\"><div class=\"tree\">"@ + html_form(
            d,
            0,
            pads,
        ) + "</div></div>"@,
    )
}

/// Render a single form diff as a standalone HTML page. `pads[d]` is the
/// padding style of a row at depth `d`.
pub fn form_diff_html(diff: &FormDiff, pads: &[String]) -> (s: String)
    ensures
        s@ == form_diff_html_spec(*diff, pads_view(pads)),
{
    let mut b = String::from_str(
        "<h1>Structural diff</h1><div class=\"sub\">two forms</div><div class=\"unit\"><div class=\"tree\">",
    );
    push_html_form(diff, 0, pads, &mut b);
    b.append("</div></div>");
    page("Structural diff", &b)
}


// --- Deep diffs ------------------------------------------------------------------------------

/// A definition's head row, with marker class `cls` and marker `mk`, the
/// kind classed `kcls`, then the opening of its tree.
pub open spec fn unit_head(
    cls: Seq<char>,
    mk: Seq<char>,
    kcls: Seq<char>,
    kind: Seq<char>,
    name: Seq<char>,
    sig: Option<Seq<char>>,
    line: u32,
    hash: Seq<char>,
) -> Seq<char> {
    "<div class=\"unit\"><div class=\"uhead\"><span class=\"mk "@ + cls + "\">"@ + mk + "</span><span class=\"k"@ + kcls
        + "\">"@ + esc_spec(kind) + "</span> <span class=\"n\">"@ + esc_spec(name) + "</span>"@ + sig_html(sig)
        + "<span class=\"a\">"@ + decimal(line as nat) + ":"@ + esc_spec(hash) + "</span></div><div class=\"tree\">"@
}

/// A changed definition: its head and its form diff's rows.
pub open spec fn changed_html(t: UnitTreeDiff, pads: Seq<Seq<char>>) -> Seq<char> {
    unit_head("chg"@, "~"@, ""@, t.kind@, t.name@, opt_str(t.signature), t.line, t.hash@) + html_form(t.diff, 0, pads)
        + "</div></div>"@
}

/// Lens nodes `es[1..k]` as rows, each padded by its depth.
pub open spec fn lens_rows(es: Seq<EntryV>, pads: Seq<Seq<char>>, k: int) -> Seq<char>
    decreases k,
{
    if k <= 1 || k > es.len() {
        Seq::empty()
    } else {
        lens_rows(es, pads, k - 1) + "<div class=\"row\" style=\""@ + pad_style(pads, es[k - 1].depth as int) + "\">"@
            + esc_spec(es[k - 1].hash) + "  "@ + esc_spec(es[k - 1].preview) + "</div>"@
    }
}

/// An added or removed definition: its head, then its exact source in one
/// row when it carries it, else its lens below the head.
pub open spec fn lens_html(cls: Seq<char>, mk: Seq<char>, l: UnitLens, pads: Seq<Seq<char>>) -> Seq<char> {
    unit_head(cls, mk, " "@ + cls, l.kind@, l.name@, opt_str(l.signature), l.line, l.hash@) + match l.verbatim {
        Some(src) => "<div class=\"row\">"@ + esc_spec(src@) + "</div>"@,
        None => lens_rows(evs(l.lens@), pads, l.lens@.len() as int),
    } + "</div></div>"@
}

pub open spec fn changed_htmls(ts: Seq<UnitTreeDiff>, pads: Seq<Seq<char>>, k: int) -> Seq<char>
    decreases k,
{
    if k <= 0 || k > ts.len() {
        Seq::empty()
    } else {
        changed_htmls(ts, pads, k - 1) + changed_html(ts[k - 1], pads)
    }
}

pub open spec fn lens_htmls(cls: Seq<char>, mk: Seq<char>, ls: Seq<UnitLens>, pads: Seq<Seq<char>>, k: int) -> Seq<char>
    decreases k,
{
    if k <= 0 || k > ls.len() {
        Seq::empty()
    } else {
        lens_htmls(cls, mk, ls, pads, k - 1) + lens_html(cls, mk, ls[k - 1], pads)
    }
}

/// The page of a deep diff: a header and the summary pills, then the
/// changed definitions with their trees and the added and removed ones with
/// their lenses, or a note that nothing changed.
pub open spec fn deep_html_spec(d: DeepDiff, pads: Seq<Seq<char>>) -> Seq<char> {
    let head = "<h1>Structural diff</h1><div class=\"sub\">how each definition changed</div>"@ + pills_spec(
        d.changed@.len(),
        d.added@.len(),
        d.removed@.len(),
        false,
    );
    let body = if d.changed@.len() == 0 && d.added@.len() == 0 && d.removed@.len() == 0 {
        head + "<div class=\"empty\">No structural change.</div>"@
    } else {
        head + changed_htmls(d.changed@, pads, d.changed@.len() as int) + lens_htmls(
            "add"@,
            "+"@,
            d.added@,
            pads,
            d.added@.len() as int,
        ) + lens_htmls("del"@, "-"@, d.removed@, pads, d.removed@.len() as int)
    };
    page_spec("Structural diff"@, body)
}

fn push_unit_head(
    out: &mut String,
    cls: &str,
    mk: &str,
    kcls: &str,
    kind: &String,
    name: &String,
    sig: &Option<String>,
    line: u32,
    hash: &String,
)
    ensures
        final(out)@ == old(out)@ + unit_head(cls@, mk@, kcls@, kind@, name@, opt_str(*sig), line, hash@),
{
    let ghost o = out@;
    out.append("<div class=\"unit\"><div class=\"uhead\"><span class=\"mk ");
    out.append(cls);
    out.append("\">");
    out.append(mk);
    out.append("</span><span class=\"k");
    out.append(kcls);
    out.append("\">");
    push_esc(out, kind.as_str());
    out.append("</span> <span class=\"n\">");
    push_esc(out, name.as_str());
    out.append("</span>");
    push_sig(out, sig);
    out.append("<span class=\"a\">");
    out.append(decimal_string(line as usize).as_str());
    out.append(":");
    push_esc(out, hash.as_str());
    out.append("</span></div><div class=\"tree\">");
    assert(opt_seq(*sig) == opt_str(*sig));
    assert(out@ =~= o + unit_head(cls@, mk@, kcls@, kind@, name@, opt_str(*sig), line, hash@));
}

fn push_lens_html(out: &mut String, cls: &str, mk: &str, l: &UnitLens, pads: &[String])
    ensures
        final(out)@ == old(out)@ + lens_html(cls@, mk@, *l, pads_view(pads)),
{
    let ghost o = out@;
    let mut kc = String::from_str(" ");
    kc.append(cls);
    push_unit_head(out, cls, mk, kc.as_str(), &l.kind, &l.name, &l.signature, l.line, &l.hash);
    let ghost h = out@;
    match &l.verbatim {
        Some(src) => {
            out.append("<div class=\"row\">");
            push_esc(out, src.as_str());
            out.append("</div>");
        },
        None => {
            let ghost es = evs(l.lens@);
            let ghost pv = pads_view(pads);
            let mut k: usize = 1;
            while k < l.lens.len()
                invariant
                    es == evs(l.lens@),
                    pv == pads_view(pads),
                    1 <= k,
                    k <= l.lens@.len() || l.lens@.len() == 0,
                    out@ == h + lens_rows(es, pv, k as int),
                decreases l.lens.len() - k,
            {
                let e = &l.lens[k];
                let ghost o1 = out@;
                out.append("<div class=\"row\" style=\"");
                push_pad_style(out, pads, e.depth);
                out.append("\">");
                push_esc(out, e.hash.as_str());
                out.append("  ");
                push_esc(out, e.preview.as_str());
                out.append("</div>");
                proof {
                    assert(es[k as int] == crate::units::entry_view(*e));
                    assert(out@ =~= h + lens_rows(es, pv, k + 1));
                }
                k = k + 1;
            }
            proof {
                if l.lens@.len() == 0 {
                    assert(lens_rows(es, pv, k as int) == lens_rows(es, pv, l.lens@.len() as int));
                }
            }
        },
    }
    out.append("</div></div>");
    assert(out@ =~= o + lens_html(cls@, mk@, *l, pads_view(pads)));
}

/// Render a deep diff as a standalone HTML page: each changed definition
/// with its tree, each added and removed one with its lens (or its exact
/// source when it carries it). `pads[d]` is the padding style of a row at
/// depth `d`.
pub fn deep_html(diff: &DeepDiff, pads: &[String]) -> (s: String)
    ensures
        s@ == deep_html_spec(*diff, pads_view(pads)),
{
    let ghost pv = pads_view(pads);
    let mut b = String::from_str("<h1>Structural diff</h1><div class=\"sub\">how each definition changed</div>");
    push_pills(&mut b, diff.changed.len(), diff.added.len(), diff.removed.len(), false);
    if diff.changed.len() == 0 && diff.added.len() == 0 && diff.removed.len() == 0 {
        b.append("<div class=\"empty\">No structural change.</div>");
        return page("Structural diff", &b);
    }
    let ghost h = b@;
    let mut i: usize = 0;
    while i < diff.changed.len()
        invariant
            pv == pads_view(pads),
            i <= diff.changed@.len(),
            b@ == h + changed_htmls(diff.changed@, pv, i as int),
        decreases diff.changed.len() - i,
    {
        let t = &diff.changed[i];
        let ghost o1 = b@;
        push_unit_head(&mut b, "chg", "~", "", &t.kind, &t.name, &t.signature, t.line, &t.hash);
        push_html_form(&t.diff, 0, pads, &mut b);
        b.append("</div></div>");
        assert(b@ =~= o1 + changed_html(*t, pv));
        i = i + 1;
    }
    let ghost c = b@;
    let mut j: usize = 0;
    while j < diff.added.len()
        invariant
            pv == pads_view(pads),
            j <= diff.added@.len(),
            b@ == c + lens_htmls("add"@, "+"@, diff.added@, pv, j as int),
        decreases diff.added.len() - j,
    {
        push_lens_html(&mut b, "add", "+", &diff.added[j], pads);
        j = j + 1;
    }
    let ghost a = b@;
    let mut k: usize = 0;
    while k < diff.removed.len()
        invariant
            pv == pads_view(pads),
            k <= diff.removed@.len(),
            b@ == a + lens_htmls("del"@, "-"@, diff.removed@, pv, k as int),
        decreases diff.removed.len() - k,
    {
        push_lens_html(&mut b, "del", "-", &diff.removed[k], pads);
        k = k + 1;
    }
    page("Structural diff", &b)
}

} // verus!
