//! What holds of the HTML page.

use crate::html::{crate_line, crate_lines, entry_url, escaped, escaped_text_holds_no_markup,
    escaping_is_injective, license_block, license_blocks, overview, overview_line, page, PAGE_HEAD,
    PAGE_MIDDLE, PAGE_TAIL};
use crate::laws::text::decimal_stands_for_its_number;
use crate::listing::{CrateEntry, SectionEntry};
use crate::text::{decimal, decimal_is_injective};
use vstd::prelude::*;

verus! {

/// Four characters are written as entities, every other as it is.
pub proof fn four_characters_are_entities(c: char)
    ensures
        escaped(seq!['&']) == "&amp;"@,
        escaped(seq!['<']) == "&lt;"@,
        escaped(seq!['>']) == "&gt;"@,
        escaped(seq!['"']) == "&quot;"@,
        c != '&' && c != '<' && c != '>' && c != '"' ==> escaped(seq![c]) == seq![c],
{
    assert forall|x: char| #![auto] escaped(seq![x]) == crate::html::escaped_char(x) by {
        let one = seq![x];
        assert(one.drop_last() == Seq::<char>::empty());
        assert(escaped(one.drop_last()) == Seq::<char>::empty());
        assert(Seq::<char>::empty() + crate::html::escaped_char(x)
            == crate::html::escaped_char(x));
    }
}

/// Texts are escaped character by character.
pub proof fn escaped_texts_add_up(a: Seq<char>, b: Seq<char>)
    ensures
        escaped(a + b) == escaped(a) + escaped(b),
    decreases b.len(),
{
    if b.len() == 0 {
        assert(a + b == a);
        assert(escaped(a) + escaped(b) == escaped(a));
    } else {
        assert((a + b).drop_last() == a + b.drop_last());
        escaped_texts_add_up(a, b.drop_last());
        assert(escaped(a + b) == escaped(a) + escaped(b));
    }
}

/// A crate is looked up in its repository, or on crates.io where it has none.
pub proof fn crate_is_looked_up(entry: CrateEntry)
    ensures
        entry.repository is Some ==> entry_url(entry) == entry.repository->0,
        entry.repository is None ==> entry_url(entry) == "https://crates.io/crates/"@ + entry.name,
{
}

/// The line that a crate has: its link, its name and its version, all escaped.
pub open spec fn line_of_crate(c: CrateEntry) -> Seq<char> {
    "                    <li><a href=\""@ + escaped(entry_url(c)) + "\">"@ + escaped(c.name) + " "@
        + escaped(c.version) + "</a></li>\n"@
}

/// The line that a license has in the overview: a link to its block, its name and the number
/// of its crates.
pub open spec fn line_of_license(s: SectionEntry) -> Seq<char> {
    "            <li><a href=\"#"@ + escaped(s.id) + "\">"@ + escaped(s.name) + "</a> ("@ + decimal(
        s.count,
    ) + ")</li>\n"@
}

/// The block that a license has: its id and name, a line for each of its crates in order,
/// and its text.
pub open spec fn block_of_license(s: SectionEntry) -> Seq<char> {
    "            <li class=\"license\">\n"@ + "                <h3 id=\""@ + escaped(s.id) + "\">"@
        + escaped(s.name) + "</h3>\n"@
        + "                <h4>Used by:</h4>\n                <ul class=\"license-used-by\">\n"@
        + s.used_by.map_values(|c: CrateEntry| line_of_crate(c)).flatten()
        + "                </ul>\n"@ + "                <pre class=\"license-text\">"@ + escaped(
        s.text,
    ) + "</pre>\n"@ + "            </li>\n"@
}

proof fn crate_lines_are_lines(crates: Seq<CrateEntry>)
    ensures
        crate_lines(crates) == crates.map_values(|c: CrateEntry| line_of_crate(c)).flatten(),
    decreases crates.len(),
{
    let lines = crates.map_values(|c: CrateEntry| line_of_crate(c));
    if crates.len() > 0 {
        let rest = crates.drop_last();
        let before = rest.map_values(|c: CrateEntry| line_of_crate(c));
        crate_lines_are_lines(rest);
        assert(lines == before.push(line_of_crate(crates.last())));
        before.lemma_flatten_push(line_of_crate(crates.last()));
        assert(crate_line(crates.last()) == line_of_crate(crates.last()));
    }
}

proof fn overview_is_lines(sections: Seq<SectionEntry>)
    ensures
        overview(sections) == sections.map_values(|s: SectionEntry| line_of_license(s)).flatten(),
    decreases sections.len(),
{
    let lines = sections.map_values(|s: SectionEntry| line_of_license(s));
    if sections.len() > 0 {
        let rest = sections.drop_last();
        let before = rest.map_values(|s: SectionEntry| line_of_license(s));
        overview_is_lines(rest);
        assert(lines == before.push(line_of_license(sections.last())));
        before.lemma_flatten_push(line_of_license(sections.last()));
        assert(overview_line(sections.last()) == line_of_license(sections.last()));
    }
}

proof fn license_blocks_are_blocks(sections: Seq<SectionEntry>)
    ensures
        license_blocks(sections) == sections.map_values(
            |s: SectionEntry| block_of_license(s),
        ).flatten(),
    decreases sections.len(),
{
    let blocks = sections.map_values(|s: SectionEntry| block_of_license(s));
    if sections.len() > 0 {
        let rest = sections.drop_last();
        let before = rest.map_values(|s: SectionEntry| block_of_license(s));
        license_blocks_are_blocks(rest);
        crate_lines_are_lines(sections.last().used_by);
        assert(license_block(sections.last()) == block_of_license(sections.last()));
        assert(blocks == before.push(block_of_license(sections.last())));
        before.lemma_flatten_push(block_of_license(sections.last()));
    }
}

/// The page has, within its frame, a line for every license and then a block for every
/// license, in the order of the sections.
pub proof fn page_has_a_line_and_a_block_for_every_license(sections: Seq<SectionEntry>)
    ensures
        page(sections) == PAGE_HEAD@ + sections.map_values(
            |s: SectionEntry| line_of_license(s),
        ).flatten() + PAGE_MIDDLE@ + sections.map_values(
            |s: SectionEntry| block_of_license(s),
        ).flatten() + PAGE_TAIL@,
{
    overview_is_lines(sections);
    license_blocks_are_blocks(sections);
}

proof fn part_stands_in_the_whole(parts: Seq<Seq<char>>, i: int) -> (r: (Seq<char>, Seq<char>))
    requires
        0 <= i < parts.len(),
    ensures
        parts.flatten() == r.0 + parts[i] + r.1,
{
    let before = parts.take(i);
    let after = parts.skip(i + 1);
    assert(parts == before.push(parts[i]) + after);
    vstd::seq_lib::lemma_flatten_concat(before.push(parts[i]), after);
    before.lemma_flatten_push(parts[i]);
    (before.flatten(), after.flatten())
}

/// Every crate of every section has its line in the page.
pub proof fn page_has_a_line_for_every_crate(
    sections: Seq<SectionEntry>,
    s: int,
    n: int,
) -> (r: (Seq<char>, Seq<char>))
    requires
        0 <= s < sections.len(),
        0 <= n < sections[s].used_by.len(),
    ensures
        page(sections) == r.0 + ("                    <li><a href=\""@ + escaped(
            entry_url(sections[s].used_by[n]),
        ) + "\">"@ + escaped(sections[s].used_by[n].name) + " "@ + escaped(
            sections[s].used_by[n].version,
        ) + "</a></li>\n"@) + r.1,
{
    page_has_a_line_and_a_block_for_every_license(sections);
    let blocks = sections.map_values(|s: SectionEntry| block_of_license(s));
    let lines = sections[s].used_by.map_values(|c: CrateEntry| line_of_crate(c));
    let (b0, b1) = part_stands_in_the_whole(blocks, s);
    let (l0, l1) = part_stands_in_the_whole(lines, n);
    let head = "            <li class=\"license\">\n"@ + "                <h3 id=\""@ + escaped(
        sections[s].id,
    ) + "\">"@ + escaped(sections[s].name) + "</h3>\n"@
        + "                <h4>Used by:</h4>\n                <ul class=\"license-used-by\">\n"@;
    let tail = "                </ul>\n"@ + "                <pre class=\"license-text\">"@ + escaped(
        sections[s].text,
    ) + "</pre>\n"@ + "            </li>\n"@;
    assert(blocks[s] == head + lines.flatten() + tail);
    let front = PAGE_HEAD@ + sections.map_values(|s: SectionEntry| line_of_license(s)).flatten()
        + PAGE_MIDDLE@;
    let before = front + b0 + head + l0;
    let after = l1 + tail + b1 + PAGE_TAIL@;
    assert(lines[n] == line_of_crate(sections[s].used_by[n]));
    assert(page(sections) == before + lines[n] + after);
    (before, after)
}

proof fn no_mark_where_none_was(s: Seq<char>, mark: char)
    requires
        !s.contains(mark),
        mark == ' ',
    ensures
        !escaped(s).contains(mark),
    decreases s.len(),
{
    reveal_strlit("&amp;");
    reveal_strlit("&lt;");
    reveal_strlit("&gt;");
    reveal_strlit("&quot;");
    if s.len() > 0 {
        let rest = s.drop_last();
        assert(s.contains(s.last()));
        assert(!rest.contains(mark)) by {
            if rest.contains(mark) {
                let i = choose|i: int| 0 <= i < rest.len() && rest[i] == mark;
                assert(s[i] == mark);
            }
        }
        no_mark_where_none_was(rest, mark);
        let head = escaped(rest);
        let tail = crate::html::escaped_char(s.last());
        if (head + tail).contains(mark) {
            let i = choose|i: int| 0 <= i < (head + tail).len() && (head + tail)[i] == mark;
            if i < head.len() {
                assert(head[i] == mark);
            } else {
                assert(tail[i - head.len()] == mark);
            }
        }
    }
}

/// What stands before the first `mark`, and what follows, is the same in two equal texts.
proof fn field_ends_at_its_mark(
    a: Seq<char>,
    b: Seq<char>,
    mark: Seq<char>,
    x: Seq<char>,
    y: Seq<char>,
)
    requires
        mark.len() > 0,
        !a.contains(mark[0]),
        !b.contains(mark[0]),
        a + mark + x == b + mark + y,
    ensures
        a == b,
        x == y,
{
    let s = a + mark + x;
    let t = b + mark + y;
    if a.len() < b.len() {
        assert(s[a.len() as int] == mark[0] && t[a.len() as int] == b[a.len() as int]);
        assert(b.contains(b[a.len() as int]));
    } else if b.len() < a.len() {
        assert(t[b.len() as int] == mark[0] && s[b.len() as int] == a[b.len() as int]);
        assert(a.contains(a[b.len() as int]));
    }
    assert(s.take(a.len() as int) == a && t.take(a.len() as int) == b);
    assert(s.skip((a.len() + mark.len()) as int) == x);
    assert(t.skip((a.len() + mark.len()) as int) == y);
}

proof fn same_start_is_cut(start: Seq<char>, x: Seq<char>, y: Seq<char>)
    requires
        start + x == start + y,
    ensures
        x == y,
{
    assert((start + x).skip(start.len() as int) == x);
    assert((start + y).skip(start.len() as int) == y);
}

/// Whether two crates are shown alike: with one link, name and version.
pub open spec fn shown_alike(a: CrateEntry, b: CrateEntry) -> bool {
    entry_url(a) == entry_url(b) && a.name == b.name && a.version == b.version
}

/// Whether no name of a crate has a space, as none of cargo has.
pub open spec fn names_have_no_space(crates: Seq<CrateEntry>) -> bool {
    forall|i: int| 0 <= i < crates.len() ==> !(#[trigger] crates[i]).name.contains(' ')
}

proof fn crate_line_is_read_back(a: CrateEntry, b: CrateEntry, x: Seq<char>, y: Seq<char>)
    requires
        !a.name.contains(' '),
        !b.name.contains(' '),
        crate_line(a) + x == crate_line(b) + y,
    ensures
        shown_alike(a, b),
        x == y,
{
    let start = "                    <li><a href=\""@;
    let quote = "\">"@;
    let space = " "@;
    let end = "</a></li>\n"@;
    reveal_strlit("\">");
    reveal_strlit(" ");
    reveal_strlit("</a></li>\n");
    let a2 = escaped(a.version) + end + x;
    let b2 = escaped(b.version) + end + y;
    let a1 = escaped(a.name) + space + a2;
    let b1 = escaped(b.name) + space + b2;
    let a0 = escaped(entry_url(a)) + quote + a1;
    let b0 = escaped(entry_url(b)) + quote + b1;
    assert(crate_line(a) + x == start + a0);
    assert(crate_line(b) + y == start + b0);
    same_start_is_cut(start, a0, b0);
    escaped_text_holds_no_markup(entry_url(a));
    escaped_text_holds_no_markup(entry_url(b));
    field_ends_at_its_mark(escaped(entry_url(a)), escaped(entry_url(b)), quote, a1, b1);
    no_mark_where_none_was(a.name, ' ');
    no_mark_where_none_was(b.name, ' ');
    field_ends_at_its_mark(escaped(a.name), escaped(b.name), space, a2, b2);
    escaped_text_holds_no_markup(a.version);
    escaped_text_holds_no_markup(b.version);
    field_ends_at_its_mark(escaped(a.version), escaped(b.version), end, x, y);
    escaping_is_injective(entry_url(a), entry_url(b));
    escaping_is_injective(a.name, b.name);
    escaping_is_injective(a.version, b.version);
}

proof fn crate_lines_from_front(crates: Seq<CrateEntry>)
    requires
        crates.len() > 0,
    ensures
        crate_lines(crates) == crate_line(crates[0]) + crate_lines(crates.skip(1)),
    decreases crates.len(),
{
    let head = crates.drop_last();
    if head.len() > 0 {
        crate_lines_from_front(head);
        assert(head.skip(1) == crates.skip(1).drop_last());
        assert(crate_lines(crates) == crate_line(crates[0]) + crate_lines(crates.skip(1)));
    } else {
        assert(crates.skip(1) == Seq::<CrateEntry>::empty());
        assert(crate_lines(head) == Seq::<char>::empty());
        assert(crate_lines(crates) == crate_line(crates[0]) + crate_lines(crates.skip(1)));
    }
}

proof fn crate_lines_are_read_back(
    a: Seq<CrateEntry>,
    b: Seq<CrateEntry>,
    x: Seq<char>,
    y: Seq<char>,
)
    requires
        names_have_no_space(a),
        names_have_no_space(b),
        crate_lines(a) + "                </ul>\n"@ + x == crate_lines(b)
            + "                </ul>\n"@ + y,
    ensures
        a.len() == b.len(),
        forall|i: int| 0 <= i < a.len() ==> shown_alike(#[trigger] a[i], b[i]),
        x == y,
    decreases a.len(),
{
    let end = "                </ul>\n"@;
    reveal_strlit("                </ul>\n");
    reveal_strlit("                    <li><a href=\"");
    let s = crate_lines(a) + end + x;
    let t = crate_lines(b) + end + y;
    if a.len() > 0 {
        crate_lines_from_front(a);
        assert(s[16] == ' ');
    } else {
        assert(s[16] == '<');
    }
    if b.len() > 0 {
        crate_lines_from_front(b);
        assert(t[16] == ' ');
    } else {
        assert(t[16] == '<');
    }
    if a.len() == 0 {
        assert(s == end + x && t == end + y);
        same_start_is_cut(end, x, y);
    } else {
        let p = crate_lines(a.skip(1)) + end + x;
        let q = crate_lines(b.skip(1)) + end + y;
        assert(s == crate_line(a[0]) + p);
        assert(t == crate_line(b[0]) + q);
        crate_line_is_read_back(a[0], b[0], p, q);
        assert forall|i: int| 0 <= i < a.skip(1).len() implies !(#[trigger] a.skip(
            1,
        )[i]).name.contains(' ') by {
            assert(a.skip(1)[i] == a[i + 1]);
        }
        assert forall|i: int| 0 <= i < b.skip(1).len() implies !(#[trigger] b.skip(
            1,
        )[i]).name.contains(' ') by {
            assert(b.skip(1)[i] == b[i + 1]);
        }
        crate_lines_are_read_back(a.skip(1), b.skip(1), x, y);
        assert forall|i: int| 0 <= i < a.len() implies shown_alike(#[trigger] a[i], b[i]) by {
            if i > 0 {
                assert(a.skip(1)[i - 1] == a[i] && b.skip(1)[i - 1] == b[i]);
            }
        }
    }
}

/// Whether the blocks of two sections show the same.
pub open spec fn same_block(a: SectionEntry, b: SectionEntry) -> bool {
    &&& a.id == b.id
    &&& a.name == b.name
    &&& a.text == b.text
    &&& a.used_by.len() == b.used_by.len()
    &&& forall|i: int|
        0 <= i < a.used_by.len() ==> shown_alike(#[trigger] a.used_by[i], b.used_by[i])
}

/// A block, with what follows it, by its fields.
proof fn block_has_its_fields(s: SectionEntry, x: Seq<char>)
    ensures
        license_block(s) + x == ("            <li class=\"license\">\n"@
            + "                <h3 id=\""@) + (escaped(s.id) + "\">"@ + (escaped(s.name) + ("</h3>\n"@
            + "                <h4>Used by:</h4>\n                <ul class=\"license-used-by\">\n"@)
            + (crate_lines(s.used_by) + "                </ul>\n"@ + (
        "                <pre class=\"license-text\">"@ + (escaped(s.text) + ("</pre>\n"@
            + "            </li>\n"@) + x))))),
{
}

proof fn block_is_read_back(a: SectionEntry, b: SectionEntry, x: Seq<char>, y: Seq<char>)
    requires
        names_have_no_space(a.used_by),
        names_have_no_space(b.used_by),
        license_block(a) + x == license_block(b) + y,
    ensures
        same_block(a, b),
        x == y,
{
    let start = "            <li class=\"license\">\n"@ + "                <h3 id=\""@;
    let quote = "\">"@;
    let named = "</h3>\n"@
        + "                <h4>Used by:</h4>\n                <ul class=\"license-used-by\">\n"@;
    let listed = "                </ul>\n"@;
    let text = "                <pre class=\"license-text\">"@;
    let end = "</pre>\n"@ + "            </li>\n"@;
    assert(quote.len() > 0 && quote[0] == '"') by {
        reveal_strlit("\">");
    }
    assert(named.len() > 0 && named[0] == '<') by {
        reveal_strlit("</h3>\n");
    }
    assert(end.len() > 0 && end[0] == '<') by {
        reveal_strlit("</pre>\n");
    }
    let a4 = escaped(a.text) + end + x;
    let b4 = escaped(b.text) + end + y;
    let a2 = crate_lines(a.used_by) + listed + (text + a4);
    let b2 = crate_lines(b.used_by) + listed + (text + b4);
    let a1 = escaped(a.name) + named + a2;
    let b1 = escaped(b.name) + named + b2;
    block_has_its_fields(a, x);
    block_has_its_fields(b, y);
    same_start_is_cut(start, escaped(a.id) + quote + a1, escaped(b.id) + quote + b1);
    escaped_text_holds_no_markup(a.id);
    escaped_text_holds_no_markup(b.id);
    field_ends_at_its_mark(escaped(a.id), escaped(b.id), quote, a1, b1);
    escaped_text_holds_no_markup(a.name);
    escaped_text_holds_no_markup(b.name);
    field_ends_at_its_mark(escaped(a.name), escaped(b.name), named, a2, b2);
    crate_lines_are_read_back(a.used_by, b.used_by, text + a4, text + b4);
    same_start_is_cut(text, a4, b4);
    escaped_text_holds_no_markup(a.text);
    escaped_text_holds_no_markup(b.text);
    field_ends_at_its_mark(escaped(a.text), escaped(b.text), end, x, y);
    escaping_is_injective(a.id, b.id);
    escaping_is_injective(a.name, b.name);
    escaping_is_injective(a.text, b.text);
}

proof fn license_blocks_from_front(sections: Seq<SectionEntry>)
    requires
        sections.len() > 0,
    ensures
        license_blocks(sections) == license_block(sections[0]) + license_blocks(sections.skip(1)),
    decreases sections.len(),
{
    let head = sections.drop_last();
    if head.len() > 0 {
        license_blocks_from_front(head);
        assert(head.skip(1) == sections.skip(1).drop_last());
        assert(license_blocks(sections) == license_block(sections[0]) + license_blocks(
            sections.skip(1),
        ));
    } else {
        assert(sections.skip(1) == Seq::<SectionEntry>::empty());
        assert(license_blocks(head) == Seq::<char>::empty());
        assert(license_blocks(sections) == license_block(sections[0]) + license_blocks(
            sections.skip(1),
        ));
    }
}

proof fn blocks_are_read_back(a: Seq<SectionEntry>, b: Seq<SectionEntry>)
    requires
        forall|i: int| 0 <= i < a.len() ==> names_have_no_space((#[trigger] a[i]).used_by),
        forall|i: int| 0 <= i < b.len() ==> names_have_no_space((#[trigger] b[i]).used_by),
        license_blocks(a) + PAGE_TAIL@ == license_blocks(b) + PAGE_TAIL@,
    ensures
        a.len() == b.len(),
        forall|i: int| 0 <= i < a.len() ==> same_block(#[trigger] a[i], b[i]),
    decreases a.len(),
{
    reveal_strlit("        </ul>\n    <main></body></html>\n");
    reveal_strlit("            <li class=\"license\">\n");
    let s = license_blocks(a) + PAGE_TAIL@;
    let t = license_blocks(b) + PAGE_TAIL@;
    if a.len() > 0 {
        license_blocks_from_front(a);
        assert(s[8] == ' ');
    } else {
        assert(s[8] == '<');
    }
    if b.len() > 0 {
        license_blocks_from_front(b);
        assert(t[8] == ' ');
    } else {
        assert(t[8] == '<');
    }
    if a.len() > 0 {
        let p = license_blocks(a.skip(1)) + PAGE_TAIL@;
        let q = license_blocks(b.skip(1)) + PAGE_TAIL@;
        assert(s == license_block(a[0]) + p);
        assert(t == license_block(b[0]) + q);
        block_is_read_back(a[0], b[0], p, q);
        assert forall|i: int| 0 <= i < a.skip(1).len() implies names_have_no_space(
            (#[trigger] a.skip(1)[i]).used_by,
        ) by {
            assert(a.skip(1)[i] == a[i + 1]);
        }
        assert forall|i: int| 0 <= i < b.skip(1).len() implies names_have_no_space(
            (#[trigger] b.skip(1)[i]).used_by,
        ) by {
            assert(b.skip(1)[i] == b[i + 1]);
        }
        blocks_are_read_back(a.skip(1), b.skip(1));
        assert forall|i: int| 0 <= i < a.len() implies same_block(#[trigger] a[i], b[i]) by {
            if i > 0 {
                assert(a.skip(1)[i - 1] == a[i] && b.skip(1)[i - 1] == b[i]);
            }
        }
    }
}

proof fn overview_line_is_read_back(a: SectionEntry, b: SectionEntry, x: Seq<char>, y: Seq<char>)
    requires
        overview_line(a) + x == overview_line(b) + y,
    ensures
        a.count == b.count,
        x == y,
{
    let start = "            <li><a href=\"#"@;
    let quote = "\">"@;
    let named = "</a> ("@;
    let end = ")</li>\n"@;
    reveal_strlit("\">");
    reveal_strlit("</a> (");
    reveal_strlit(")</li>\n");
    let a2 = decimal(a.count) + end + x;
    let b2 = decimal(b.count) + end + y;
    let a1 = escaped(a.name) + named + a2;
    let b1 = escaped(b.name) + named + b2;
    let a0 = escaped(a.id) + quote + a1;
    let b0 = escaped(b.id) + quote + b1;
    assert(overview_line(a) + x == start + a0);
    assert(overview_line(b) + y == start + b0);
    same_start_is_cut(start, a0, b0);
    escaped_text_holds_no_markup(a.id);
    escaped_text_holds_no_markup(b.id);
    field_ends_at_its_mark(escaped(a.id), escaped(b.id), quote, a1, b1);
    escaped_text_holds_no_markup(a.name);
    escaped_text_holds_no_markup(b.name);
    field_ends_at_its_mark(escaped(a.name), escaped(b.name), named, a2, b2);
    decimal_stands_for_its_number(a.count);
    decimal_stands_for_its_number(b.count);
    field_ends_at_its_mark(decimal(a.count), decimal(b.count), end, x, y);
    decimal_is_injective(a.count, b.count);
}

proof fn overview_from_front(sections: Seq<SectionEntry>)
    requires
        sections.len() > 0,
    ensures
        overview(sections) == overview_line(sections[0]) + overview(sections.skip(1)),
    decreases sections.len(),
{
    let head = sections.drop_last();
    if head.len() > 0 {
        overview_from_front(head);
        assert(head.skip(1) == sections.skip(1).drop_last());
        assert(overview(sections) == overview_line(sections[0]) + overview(sections.skip(1)));
    } else {
        assert(sections.skip(1) == Seq::<SectionEntry>::empty());
        assert(overview(head) == Seq::<char>::empty());
        assert(overview(sections) == overview_line(sections[0]) + overview(sections.skip(1)));
    }
}

proof fn overview_is_read_back(
    a: Seq<SectionEntry>,
    b: Seq<SectionEntry>,
    x: Seq<char>,
    y: Seq<char>,
)
    requires
        overview(a) + PAGE_MIDDLE@ + x == overview(b) + PAGE_MIDDLE@ + y,
    ensures
        a.len() == b.len(),
        forall|i: int| 0 <= i < a.len() ==> (#[trigger] a[i]).count == b[i].count,
        x == y,
    decreases a.len(),
{
    reveal_strlit(
        "        </ul>\n\n        <h2>All license text:</h2>\n        <ul class=\"licenses-list\">\n",
    );
    reveal_strlit("            <li><a href=\"#");
    let s = overview(a) + PAGE_MIDDLE@ + x;
    let t = overview(b) + PAGE_MIDDLE@ + y;
    if a.len() > 0 {
        overview_from_front(a);
        assert(s[8] == ' ');
    } else {
        assert(s[8] == '<');
    }
    if b.len() > 0 {
        overview_from_front(b);
        assert(t[8] == ' ');
    } else {
        assert(t[8] == '<');
    }
    if a.len() == 0 {
        assert(s == PAGE_MIDDLE@ + x && t == PAGE_MIDDLE@ + y);
        same_start_is_cut(PAGE_MIDDLE@, x, y);
    } else {
        let p = overview(a.skip(1)) + PAGE_MIDDLE@ + x;
        let q = overview(b.skip(1)) + PAGE_MIDDLE@ + y;
        assert(s == overview_line(a[0]) + p);
        assert(t == overview_line(b[0]) + q);
        overview_line_is_read_back(a[0], b[0], p, q);
        overview_is_read_back(a.skip(1), b.skip(1), x, y);
        assert forall|i: int| 0 <= i < a.len() implies (#[trigger] a[i]).count == b[i].count by {
            if i > 0 {
                assert(a.skip(1)[i - 1] == a[i] && b.skip(1)[i - 1] == b[i]);
            }
        }
    }
}

proof fn five_parts(
    a: Seq<char>,
    b: Seq<char>,
    c: Seq<char>,
    d: Seq<char>,
    e: Seq<char>,
)
    ensures
        a + b + c + d + e == a + (b + c + (d + e)),
{
}

/// Different listings have different pages: a page tells the sections in order, each with
/// its id, name, count and text, and the link, name and version of each of its crates in
/// order.
pub proof fn page_tells_the_listing(a: Seq<SectionEntry>, b: Seq<SectionEntry>)
    requires
        page(a) == page(b),
        forall|i: int| 0 <= i < a.len() ==> names_have_no_space((#[trigger] a[i]).used_by),
        forall|i: int| 0 <= i < b.len() ==> names_have_no_space((#[trigger] b[i]).used_by),
    ensures
        a.len() == b.len(),
        forall|i: int|
            0 <= i < a.len() ==> (#[trigger] a[i]).count == b[i].count && same_block(a[i], b[i]),
{
    let x = license_blocks(a) + PAGE_TAIL@;
    let y = license_blocks(b) + PAGE_TAIL@;
    let p = overview(a) + PAGE_MIDDLE@ + x;
    let q = overview(b) + PAGE_MIDDLE@ + y;
    five_parts(PAGE_HEAD@, overview(a), PAGE_MIDDLE@, license_blocks(a), PAGE_TAIL@);
    five_parts(PAGE_HEAD@, overview(b), PAGE_MIDDLE@, license_blocks(b), PAGE_TAIL@);
    same_start_is_cut(PAGE_HEAD@, p, q);
    overview_is_read_back(a, b, x, y);
    blocks_are_read_back(a, b);
    assert forall|i: int| 0 <= i < a.len() implies (#[trigger] a[i]).count == b[i].count
        && same_block(a[i], b[i]) by {}
}

} // verus!
