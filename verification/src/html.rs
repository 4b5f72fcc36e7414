//! The listing as an HTML page.

use crate::listing::{entries_of, sections_of, CrateEntry, CrateRef, LicenseSection, SectionEntry};
use crate::text::{decimal, decimal_text};
use vstd::prelude::*;

verus! {

/// What stands before the overview.
pub const PAGE_HEAD: &'static str = r#"<!DOCTYPE html>
<html>
<head>
    <style>
        @media (prefers-color-scheme: dark) {
            body { background: #333; color: white; }
            a { color: skyblue; }
        }
        .container { font-family: sans-serif; max-width: 800px; margin: 0 auto; }
        .intro { text-align: center; }
        .licenses-list { list-style-type: none; margin: 0; padding: 0; }
        .license-used-by { margin-top: -10px; }
        .license-text { max-height: 200px; overflow-y: scroll; white-space: pre-wrap; }
    </style>
</head>
<body>
    <main class="container">
        <div class="intro">
            <p>This program is distributed under the terms outlined in <a href="LICENSE.md">LICENSE.md</a></p>.
            <h1>Third Party Licenses</h1>
            <p>This page lists the licenses of the dependencies used by this program.</p>
        </div>

        <h2>Overview of licenses:</h2>
        <ul class="licenses-overview">
"#;

/// What stands between the overview and the license texts.
pub const PAGE_MIDDLE: &'static str = "        </ul>\n\n        <h2>All license text:</h2>\n        <ul class=\"licenses-list\">\n";

/// What stands behind the license texts.
pub const PAGE_TAIL: &'static str = "        </ul>\n    <main></body></html>\n";

/// How a character is written in HTML.
pub open spec fn escaped_char(c: char) -> Seq<char> {
    if c == '&' {
        "&amp;"@
    } else if c == '<' {
        "&lt;"@
    } else if c == '>' {
        "&gt;"@
    } else if c == '"' {
        "&quot;"@
    } else {
        seq![c]
    }
}

/// How a text is written in HTML.
pub open spec fn escaped(s: Seq<char>) -> Seq<char>
    decreases s.len(),
{
    if s.len() == 0 {
        s
    } else {
        escaped(s.drop_last()) + escaped_char(s.last())
    }
}

/// Where a crate can be looked up.
pub open spec fn entry_url(entry: CrateEntry) -> Seq<char> {
    match entry.repository {
        Some(repository) => repository,
        None => "https://crates.io/crates/"@ + entry.name,
    }
}

/// The line of a license in the overview.
pub open spec fn overview_line(s: SectionEntry) -> Seq<char> {
    "            <li><a href=\"#"@ + escaped(s.id) + "\">"@ + escaped(s.name) + "</a> ("@ + decimal(
        s.count,
    ) + ")</li>\n"@
}

/// The line of a crate under a license.
pub open spec fn crate_line(c: CrateEntry) -> Seq<char> {
    "                    <li><a href=\""@ + escaped(entry_url(c)) + "\">"@ + escaped(c.name) + " "@
        + escaped(c.version) + "</a></li>\n"@
}

/// The overview.
pub open spec fn overview(sections: Seq<SectionEntry>) -> Seq<char>
    decreases sections.len(),
{
    if sections.len() == 0 {
        Seq::empty()
    } else {
        overview(sections.drop_last()) + overview_line(sections.last())
    }
}

/// The lines of crates.
pub open spec fn crate_lines(crates: Seq<CrateEntry>) -> Seq<char>
    decreases crates.len(),
{
    if crates.len() == 0 {
        Seq::empty()
    } else {
        crate_lines(crates.drop_last()) + crate_line(crates.last())
    }
}

/// A license with its crates and its text.
pub open spec fn license_block(s: SectionEntry) -> Seq<char> {
    "            <li class=\"license\">\n"@ + "                <h3 id=\""@ + escaped(s.id) + "\">"@
        + escaped(s.name) + "</h3>\n"@
        + "                <h4>Used by:</h4>\n                <ul class=\"license-used-by\">\n"@
        + crate_lines(s.used_by) + "                </ul>\n"@
        + "                <pre class=\"license-text\">"@ + escaped(s.text) + "</pre>\n"@
        + "            </li>\n"@
}

/// The licenses with their crates and texts.
pub open spec fn license_blocks(sections: Seq<SectionEntry>) -> Seq<char>
    decreases sections.len(),
{
    if sections.len() == 0 {
        Seq::empty()
    } else {
        license_blocks(sections.drop_last()) + license_block(sections.last())
    }
}

/// The page.
pub open spec fn page(sections: Seq<SectionEntry>) -> Seq<char> {
    PAGE_HEAD@ + overview(sections) + PAGE_MIDDLE@ + license_blocks(sections) + PAGE_TAIL@
}

/// `s` with the characters that mean something in HTML written as entities.
pub fn html_escape(s: &str) -> (r: String)
    ensures
        r@ == escaped(s@),
{
    let mut out = String::new();
    for c in it: s.chars()
        invariant
            out@ == escaped(it.seq().take(it.index() as int)),
            it.seq() == s@,
    {
        let ghost before = it.seq().take(it.index() as int);
        assert(it.seq().take(it.index() + 1).drop_last() == before);
        assert(it.seq().take(it.index() + 1).last() == c);
        if c == '&' {
            out.append("&amp;");
        } else if c == '<' {
            out.append("&lt;");
        } else if c == '>' {
            out.append("&gt;");
        } else if c == '"' {
            out.append("&quot;");
        } else {
            out.push(c);
            assert(out@ == escaped(before) + seq![c]);
        }
    }
    assert(s@.take(s@.len() as int) == s@);
    out
}

/// Where a crate can be looked up.
pub fn crate_url(c: &CrateRef) -> (r: String)
    ensures
        r@ == entry_url(c@),
{
    match &c.repository {
        Some(repository) => repository.clone(),
        None => {
            let mut out = String::new();
            out.append("https://crates.io/crates/");
            out.append(c.name.as_str());
            out
        },
    }
}

/// Appends the line of a license in the overview.
fn append_overview_line(out: &mut String, s: &LicenseSection)
    ensures
        final(out)@ == old(out)@ + overview_line(s@),
{
    out.append("            <li><a href=\"#");
    out.append(html_escape(s.id.as_str()).as_str());
    out.append("\">");
    out.append(html_escape(s.name.as_str()).as_str());
    out.append("</a> (");
    out.append(decimal_text(s.count).as_str());
    out.append(")</li>\n");
    assert(out@ == old(out)@ + overview_line(s@));
}

/// Appends the line of a crate under a license.
fn append_crate_line(out: &mut String, c: &CrateRef)
    ensures
        final(out)@ == old(out)@ + crate_line(c@),
{
    out.append("                    <li><a href=\"");
    out.append(html_escape(crate_url(c).as_str()).as_str());
    out.append("\">");
    out.append(html_escape(c.name.as_str()).as_str());
    out.append(" ");
    out.append(html_escape(c.version.as_str()).as_str());
    out.append("</a></li>\n");
    assert(out@ == old(out)@ + crate_line(c@));
}

/// Appends a license with its crates and its text.
fn append_license_block(out: &mut String, s: &LicenseSection)
    ensures
        final(out)@ == old(out)@ + license_block(s@),
{
    out.append("            <li class=\"license\">\n");
    out.append("                <h3 id=\"");
    out.append(html_escape(s.id.as_str()).as_str());
    out.append("\">");
    out.append(html_escape(s.name.as_str()).as_str());
    out.append("</h3>\n");
    out.append("                <h4>Used by:</h4>\n                <ul class=\"license-used-by\">\n");
    let ghost before = out@;
    let ghost crates = entries_of(s.used_by@);
    let mut i: usize = 0;
    assert(before + crate_lines(crates.take(0)) == before);
    while i < s.used_by.len()
        invariant
            i <= s.used_by@.len(),
            crates == entries_of(s.used_by@),
            out@ == before + crate_lines(crates.take(i as int)),
        decreases s.used_by@.len() - i,
    {
        assert(crates.take(i + 1).drop_last() == crates.take(i as int));
        assert(crates.take(i + 1).last() == s.used_by@[i as int]@);
        append_crate_line(out, &s.used_by[i]);
        assert(out@ == before + crate_lines(crates.take(i + 1)));
        i += 1;
    }
    assert(crates.take(s.used_by@.len() as int) == crates);
    out.append("                </ul>\n");
    out.append("                <pre class=\"license-text\">");
    out.append(html_escape(s.text.as_str()).as_str());
    out.append("</pre>\n");
    out.append("            </li>\n");
    assert(out@ == old(out)@ + license_block(s@));
}

/// The listing as an HTML page.
pub fn render_html(sections: &Vec<LicenseSection>) -> (r: String)
    ensures
        r@ == page(sections_of(sections@)),
{
    let ghost all = sections_of(sections@);
    let mut out = String::new();
    out.append(PAGE_HEAD);
    let mut i: usize = 0;
    assert(out@ == PAGE_HEAD@ + overview(all.take(0)));
    while i < sections.len()
        invariant
            i <= sections@.len(),
            all == sections_of(sections@),
            out@ == PAGE_HEAD@ + overview(all.take(i as int)),
        decreases sections@.len() - i,
    {
        assert(all.take(i + 1).drop_last() == all.take(i as int));
        assert(all.take(i + 1).last() == sections@[i as int]@);
        append_overview_line(&mut out, &sections[i]);
        assert(out@ == PAGE_HEAD@ + overview(all.take(i + 1)));
        i += 1;
    }
    assert(all.take(sections@.len() as int) == all);
    out.append(PAGE_MIDDLE);
    let ghost before = out@;
    let mut j: usize = 0;
    assert(before + license_blocks(all.take(0)) == before);
    while j < sections.len()
        invariant
            j <= sections@.len(),
            all == sections_of(sections@),
            out@ == before + license_blocks(all.take(j as int)),
        decreases sections@.len() - j,
    {
        assert(all.take(j + 1).drop_last() == all.take(j as int));
        assert(all.take(j + 1).last() == sections@[j as int]@);
        append_license_block(&mut out, &sections[j]);
        assert(out@ == before + license_blocks(all.take(j + 1)));
        j += 1;
    }
    assert(all.take(sections@.len() as int) == all);
    out.append(PAGE_TAIL);
    out
}

/// An escaped text holds no character that would end an attribute value or begin or
/// end a tag.
pub proof fn escaped_text_holds_no_markup(s: Seq<char>)
    ensures
        !escaped(s).contains('<'),
        !escaped(s).contains('>'),
        !escaped(s).contains('"'),
    decreases s.len(),
{
    reveal_strlit("&amp;");
    reveal_strlit("&lt;");
    reveal_strlit("&gt;");
    reveal_strlit("&quot;");
    if s.len() > 0 {
        escaped_text_holds_no_markup(s.drop_last());
        let head = escaped(s.drop_last());
        let tail = escaped_char(s.last());
        assert forall|c: char| c == '<' || c == '>' || c == '"' implies !(head + tail).contains(
            c,
        ) by {
            if (head + tail).contains(c) {
                let i = choose|i: int| 0 <= i < (head + tail).len() && (head + tail)[i] == c;
                if i < head.len() {
                    assert(head[i] == c);
                } else {
                    assert(tail[i - head.len()] == c);
                }
            }
        }
    }
}

proof fn escaped_from_front(s: Seq<char>)
    requires
        s.len() > 0,
    ensures
        escaped(s) == escaped_char(s[0]) + escaped(s.skip(1)),
    decreases s.len(),
{
    let head = s.drop_last();
    if head.len() > 0 {
        escaped_from_front(head);
        assert(head.skip(1) == s.skip(1).drop_last());
        assert(s.skip(1).last() == s.last());
        assert(escaped(s) == escaped_char(s[0]) + escaped(s.skip(1)));
    } else {
        assert(s.skip(1) == Seq::<char>::empty());
        assert(escaped(head) == Seq::<char>::empty());
        assert(escaped(s) == escaped_char(s[0]) + escaped(s.skip(1)));
    }
}

/// Escaping loses nothing: different texts are escaped differently.
pub proof fn escaping_is_injective(a: Seq<char>, b: Seq<char>)
    requires
        escaped(a) == escaped(b),
    ensures
        a == b,
    decreases a.len(),
{
    reveal_strlit("&amp;");
    reveal_strlit("&lt;");
    reveal_strlit("&gt;");
    reveal_strlit("&quot;");
    if a.len() > 0 {
        escaped_from_front(a);
    }
    if b.len() > 0 {
        escaped_from_front(b);
    }
    if a.len() == 0 || b.len() == 0 {
        assert(a == b);
    } else {
        let x = escaped_char(a[0]);
        let y = escaped_char(b[0]);
        let out = escaped(a);
        assert(out[0] == x[0] && out[0] == y[0]);
        if x.len() > 1 && y.len() > 1 {
            assert(out[1] == x[1] && out[1] == y[1]);
        }
        assert(a[0] == b[0]);
        assert(out.skip(x.len() as int) == escaped(a.skip(1)));
        assert(out.skip(y.len() as int) == escaped(b.skip(1)));
        escaping_is_injective(a.skip(1), b.skip(1));
        assert(a == seq![a[0]] + a.skip(1));
        assert(b == seq![b[0]] + b.skip(1));
    }
}

} // verus!
