//! The file in which Woob keeps its backends.
//!
//! The file is made of sections, one for each backend: a line with the name in
//! square brackets, then lines with a key, an equals sign and a value. Keys that
//! start with an underscore are Woob's own; the others are the credentials. A
//! credential whose value stands between backquotes is a command, by which Woob
//! has the secret from the system's keychain; any other is plain text.

use crate::text::{
    chain, characters, find_char, first_at, is_trimmed, lemma_first_at, lemma_is_first_at,
    lemma_lines_hold_no_feed, lemma_trimmed, lemma_trimmed_end, lemma_trimmed_start, lines,
    lines_of, lowercase, same_text, spell, text_to_lowercase, texts, trim, trimmed, trimmed_end,
    trimmed_start, without_return,
};
use vstd::prelude::*;
use vstd::string::StringExecFns;

verus! {

/// A section of the backends file.
#[derive(Debug)]
pub struct Section {
    pub name: String,
    pub fields: Vec<(String, String)>,
}

pub ghost struct SectionView {
    pub name: Seq<char>,
    pub fields: Seq<(Seq<char>, Seq<char>)>,
}

impl View for Section {
    type V = SectionView;

    open spec fn view(&self) -> SectionView {
        SectionView { name: self.name@, fields: field_views(self.fields@) }
    }
}

/// The views of a list of fields.
pub open spec fn field_views(fields: Seq<(String, String)>) -> Seq<(Seq<char>, Seq<char>)> {
    fields.map_values(|field: (String, String)| (field.0@, field.1@))
}

/// The views of a list of sections.
pub open spec fn section_views(sections: Seq<Section>) -> Seq<SectionView> {
    sections.map_values(|section: Section| section@)
}

// ── Reading ──────────────────────────────────────────────────────────────────

/// Whether a line starts a section.
pub open spec fn is_header(line: Seq<char>) -> bool {
    line.len() > 0 && line[0] == '[' && line.last() == ']'
}

/// The name in the line that starts a section.
pub open spec fn header_name(line: Seq<char>) -> Seq<char> {
    line.subrange(1, line.len() - 1)
}

/// The field in a line, where the line has an equals sign with a key before it.
pub open spec fn field_of(line: Seq<char>) -> Option<(Seq<char>, Seq<char>)> {
    match first_at(line, '=') {
        None => None,
        Some(k) => {
            let key = trimmed(line.take(k));
            if key.len() > 0 {
                Some((key, trimmed(line.skip(k + 1))))
            } else {
                None
            }
        },
    }
}

/// Sections, after one more line, without the white space around it: it starts
/// a section, or adds a field to the last one, or says nothing.
pub open spec fn after_line(sections: Seq<SectionView>, line: Seq<char>) -> Seq<SectionView> {
    if is_header(line) {
        sections.push(SectionView { name: header_name(line), fields: Seq::empty() })
    } else if sections.len() > 0 && field_of(line) is Some {
        let last = sections.last();
        sections.drop_last().push(
            SectionView { name: last.name, fields: last.fields.push(field_of(line)->0) },
        )
    } else {
        sections
    }
}

/// Sections, after some more lines.
pub open spec fn after_lines(sections: Seq<SectionView>, lines: Seq<Seq<char>>) -> Seq<SectionView>
    decreases lines.len(),
{
    if lines.len() == 0 {
        sections
    } else {
        after_line(after_lines(sections, lines.drop_last()), trimmed(lines.last()))
    }
}

/// The sections of a backends file.
pub open spec fn sections_of(content: Seq<char>) -> Seq<SectionView> {
    after_lines(Seq::empty(), lines_of(content))
}

/// The field in a line, where it has one.
fn parse_field(line: &String) -> (field: Option<(String, String)>)
    ensures
        match field {
            Some((key, value)) => field_of(line@) == Some((key@, value@)),
            None => field_of(line@) is None,
        },
{
    let chars = characters(line.as_str());
    match find_char(&chars, '=') {
        None => None,
        Some(k) => {
            let key = trim(spell(&chars, 0, k).as_str());
            let end: usize = chars.len();
            assert(k < end);
            let value = trim(spell(&chars, k + 1, end).as_str());
            assert(chars@.subrange(0, k as int) =~= line@.take(k as int));
            assert(chars@.subrange(k + 1, chars@.len() as int) =~= line@.skip(k + 1));
            if key.as_str().is_empty() {
                None
            } else {
                Some((key, value))
            }
        },
    }
}

/// The sections of a backends file, in their order.
pub fn parse_ini(content: &str) -> (sections: Vec<Section>)
    ensures
        section_views(sections@) == sections_of(content@),
{
    let all_lines = lines(content);
    let ghost every = lines_of(content@);
    let mut sections: Vec<Section> = Vec::new();
    assert(section_views(sections@) =~= after_lines(Seq::empty(), every.take(0)));
    for i in 0..all_lines.len()
        invariant
            every == lines_of(content@),
            texts(all_lines@) == every,
            section_views(sections@) == after_lines(Seq::empty(), every.take(i as int)),
    {
        let ghost before = sections@;
        let line = trim(all_lines[i].as_str());
        proof {
            assert(every.take(i + 1).drop_last() =~= every.take(i as int));
            assert(every.take(i + 1).last() == all_lines@[i as int]@);
        }
        let chars = characters(line.as_str());
        if chars.len() > 0 && chars[0] == '[' && chars[chars.len() - 1] == ']' {
            let section = Section { name: spell(&chars, 1, chars.len() - 1), fields: Vec::new() };
            assert(field_views(section.fields@) =~= Seq::empty());
            sections.push(section);
            assert(section_views(sections@) =~= section_views(before).push(section@));
        } else if sections.len() > 0 {
            match parse_field(&line) {
                Some((key, value)) => {
                    let mut last = match sections.pop() {
                        Some(last) => last,
                        None => Section { name: String::new(), fields: Vec::new() },
                    };
                    let ghost was = last@;
                    let ghost fields = last.fields@;
                    last.fields.push((key, value));
                    sections.push(last);
                    proof {
                        assert(field_views(last.fields@) =~= field_views(fields).push(
                            (key@, value@),
                        ));
                        assert(section_views(before).last() == was);
                        assert(section_views(sections@) =~= section_views(
                            before,
                        ).drop_last().push(last@));
                    }
                },
                None => {},
            }
        }
    }
    assert(every.take(every.len() as int) =~= every);
    sections
}

// ── Writing ──────────────────────────────────────────────────────────────────

/// The line of a field.
pub open spec fn field_line(field: (Seq<char>, Seq<char>)) -> Seq<char> {
    field.0 + " = "@ + field.1
}

/// The lines of fields.
pub open spec fn fields_text(fields: Seq<(Seq<char>, Seq<char>)>) -> Seq<char>
    decreases fields.len(),
{
    if fields.len() == 0 {
        Seq::empty()
    } else {
        fields_text(fields.drop_last()) + field_line(fields.last()) + "\n"@
    }
}

/// The lines of a section, and an empty one behind them.
pub open spec fn section_text(section: SectionView) -> Seq<char> {
    "["@ + section.name + "]\n"@ + fields_text(section.fields) + "\n"@
}

/// The file for some sections.
pub open spec fn written(sections: Seq<SectionView>) -> Seq<char>
    decreases sections.len(),
{
    if sections.len() == 0 {
        Seq::empty()
    } else {
        written(sections.drop_last()) + section_text(sections.last())
    }
}

/// The file for some sections.
pub fn write_ini(sections: &Vec<Section>) -> (content: String)
    ensures
        content@ == written(section_views(sections@)),
{
    let mut content = String::new();
    let ghost every = section_views(sections@);
    for i in 0..sections.len()
        invariant
            every == section_views(sections@),
            content@ == written(every.take(i as int)),
    {
        let section = &sections[i];
        let ghost before = content@;
        let ghost start = before + "["@ + section.name@ + "]\n"@;
        content.append("[");
        content.append(section.name.as_str());
        content.append("]\n");
        let ghost views = field_views(section.fields@);
        assert(content@ =~= start + fields_text(views.take(0)));
        for j in 0..section.fields.len()
            invariant
                views == field_views(section.fields@),
                content@ == start + fields_text(views.take(j as int)),
        {
            let ghost so_far = content@;
            content.append(section.fields[j].0.as_str());
            content.append(" = ");
            content.append(section.fields[j].1.as_str());
            content.append("\n");
            proof {
                assert(views.take(j + 1).drop_last() =~= views.take(j as int));
                assert(views[j as int] == (section.fields@[j as int].0@,
                    section.fields@[j as int].1@));
                assert(content@ =~= start + fields_text(views.take(j + 1)));
            }
        }
        content.append("\n");
        proof {
            assert(views.take(views.len() as int) =~= views);
            assert(every.take(i + 1).drop_last() =~= every.take(i as int));
            assert(every[i as int] == section@);
            assert(content@ =~= before + section_text(section@));
        }
    }
    assert(every.take(every.len() as int) =~= every);
    content
}

// ── Reading what was written ─────────────────────────────────────────────────

/// Whether a text stands on one line.
pub open spec fn is_one_line(text: Seq<char>) -> bool {
    !text.contains('\n')
}

proof fn lemma_one_line_of_two(a: Seq<char>, b: Seq<char>)
    ensures
        is_one_line(a) && is_one_line(b) ==> is_one_line(a + b),
{
    if is_one_line(a) && is_one_line(b) {
        assert forall|j: int| 0 <= j < (a + b).len() implies (a + b)[j] != '\n' by {
            if j < a.len() {
                assert(a.contains(a[j]));
            } else {
                assert(b.contains(b[j - a.len()]));
            }
        }
    }
}

/// Whether a field can be written on a line of its own and read back from it.
pub open spec fn is_clean_field(field: (Seq<char>, Seq<char>)) -> bool {
    &&& field.0.len() > 0
    &&& is_trimmed(field.0)
    &&& is_trimmed(field.1)
    &&& !field.0.contains('=')
    &&& !field.0.contains('\n')
    &&& !field.1.contains('\n')
    &&& !(field.0[0] == '[' && field.1.len() > 0 && field.1.last() == ']')
}

/// Whether a section can be written and read back.
pub open spec fn is_clean(section: SectionView) -> bool {
    &&& !section.name.contains('\n')
    &&& forall|i: int| 0 <= i < section.fields.len()
        ==> is_clean_field(#[trigger] section.fields[i])
}

/// Whether each of some sections can be written and read back.
pub open spec fn are_clean(sections: Seq<SectionView>) -> bool {
    forall|i: int| 0 <= i < sections.len() ==> is_clean(#[trigger] sections[i])
}

/// The lines of a text that ends a line, and of another behind it.
proof fn lemma_lines_of_two(a: Seq<char>, b: Seq<char>)
    requires
        a.len() > 0 ==> a.last() == '\n',
    ensures
        lines_of(a + b) == lines_of(a) + lines_of(b),
    decreases a.len(),
{
    if a.len() == 0 {
        assert(a + b =~= b);
        assert(lines_of(a) + lines_of(b) =~= lines_of(b));
    } else {
        lemma_first_at(a, '\n');
        if first_at(a, '\n') is None {
            assert(a.contains(a.last()));
        }
        let k = first_at(a, '\n')->0;
        assert forall|j: int| 0 <= j < k implies (a + b)[j] != '\n' by {
            assert((a + b)[j] == a[j]);
        }
        assert((a + b)[k] == a[k]);
        lemma_is_first_at(a + b, '\n', k);
        assert((a + b).take(k) =~= a.take(k));
        assert((a + b).skip(k + 1) =~= a.skip(k + 1) + b);
        lemma_lines_of_two(a.skip(k + 1), b);
        assert(lines_of(a + b) =~= lines_of(a) + lines_of(b));
    }
}

/// The one line of a text that ends with it.
proof fn lemma_one_line(line: Seq<char>)
    requires
        !line.contains('\n'),
    ensures
        lines_of(line + "\n"@) == seq![without_return(line)],
{
    reveal_strlit("\n");
    let text = line + "\n"@;
    assert("\n"@ =~= seq!['\n']);
    assert forall|j: int| 0 <= j < line.len() implies text[j] != '\n' by {
        assert(text[j] == line[j]);
    }
    lemma_is_first_at(text, '\n', line.len() as int);
    assert(text.take(line.len() as int) =~= line);
    assert(text.skip(line.len() as int + 1) =~= Seq::<char>::empty());
    assert(lines_of(Seq::<char>::empty()) =~= Seq::<Seq<char>>::empty());
    assert(lines_of(text) =~= seq![without_return(line)]);
}

proof fn lemma_after_lines_of_two(
    sections: Seq<SectionView>,
    a: Seq<Seq<char>>,
    b: Seq<Seq<char>>,
)
    ensures
        after_lines(sections, a + b) == after_lines(after_lines(sections, a), b),
    decreases b.len(),
{
    if b.len() == 0 {
        assert(a + b =~= a);
    } else {
        assert((a + b).drop_last() =~= a + b.drop_last());
        lemma_after_lines_of_two(sections, a, b.drop_last());
    }
}

/// A clean field is read back from its line.
proof fn lemma_field_reads_back(field: (Seq<char>, Seq<char>))
    requires
        is_clean_field(field),
    ensures
        !field_line(field).contains('\n'),
        !is_header(trimmed(without_return(field_line(field)))),
        field_of(trimmed(without_return(field_line(field)))) == Some(field),
{
    reveal_strlit(" = ");
    let (key, value) = field;
    let line = field_line(field);
    assert(line =~= key + seq![' ', '=', ' '] + value);
    assert forall|j: int| 0 <= j < line.len() implies line[j] != '\n' by {
        if j < key.len() {
            assert(line[j] == key[j]);
            assert(key.contains(key[j]));
        } else if j >= key.len() + 3 {
            assert(line[j] == value[j - key.len() - 3]);
            assert(value.contains(value[j - key.len() - 3]));
        }
    }
    assert(without_return(line) == line) by {
        if value.len() > 0 {
            assert(line.last() == value.last());
        } else {
            assert(line.last() == ' ');
        }
    }
    let clean = if value.len() > 0 {
        line
    } else {
        line.drop_last()
    };
    assert(clean[0] == key[0]);
    assert(trimmed(line) == clean) by {
        assert(trimmed_start(line) == line);
        if value.len() > 0 {
            assert(line.last() == value.last());
        } else {
            assert(line.last() == ' ');
            assert(clean.last() == '=');
            assert(trimmed_end(clean) == clean);
        }
    }
    assert forall|j: int| 0 <= j < key.len() + 1 implies clean[j] != '=' by {
        if j < key.len() {
            assert(clean[j] == key[j]);
            assert(key.contains(key[j]));
        }
    }
    lemma_is_first_at(clean, '=', key.len() as int + 1);
    assert(clean.take(key.len() as int + 1) =~= key.push(' '));
    assert(trimmed(key.push(' ')) == key) by {
        assert(key.push(' ')[0] == key[0]);
        assert(trimmed_start(key.push(' ')) == key.push(' '));
        assert(key.push(' ').drop_last() =~= key);
        assert(trimmed_end(key) == key);
    }
    let behind = clean.skip(key.len() as int + 2);
    if value.len() > 0 {
        assert(behind =~= seq![' '] + value);
        assert(behind.drop_first() =~= value);
        assert(trimmed_start(value) == value);
        assert(trimmed_end(value) == value);
        assert(trimmed(behind) == value);
        assert(clean.last() == value.last());
    } else {
        assert(behind =~= Seq::empty());
        assert(value =~= Seq::empty());
        assert(trimmed(behind) == value);
        assert(clean.last() == '=');
    }
}

/// Clean fields are read back from their lines.
proof fn lemma_fields_read_back(
    before: Seq<SectionView>,
    name: Seq<char>,
    fields: Seq<(Seq<char>, Seq<char>)>,
)
    requires
        forall|i: int| 0 <= i < fields.len() ==> is_clean_field(#[trigger] fields[i]),
    ensures
        fields_text(fields).len() > 0 ==> fields_text(fields).last() == '\n',
        after_lines(
            before.push(SectionView { name, fields: Seq::empty() }),
            lines_of(fields_text(fields)),
        ) == before.push(SectionView { name, fields }),
    decreases fields.len(),
{
    let start = before.push(SectionView { name, fields: Seq::empty() });
    if fields.len() == 0 {
        assert(fields =~= Seq::empty());
    } else {
        reveal_strlit("\n");
        let fewer = fields.drop_last();
        let last = fields.last();
        assert forall|i: int| 0 <= i < fewer.len() implies is_clean_field(
            #[trigger] fewer[i],
        ) by {
            assert(is_clean_field(fields[i]));
        }
        lemma_fields_read_back(before, name, fewer);
        assert(is_clean_field(fields[fields.len() - 1]));
        lemma_field_reads_back(last);
        lemma_one_line(field_line(last));
        let line = field_line(last) + "\n"@;
        assert(fields_text(fields) =~= fields_text(fewer) + line);
        lemma_lines_of_two(fields_text(fewer), line);
        let shown = seq![without_return(field_line(last))];
        lemma_after_lines_of_two(start, lines_of(fields_text(fewer)), shown);
        let so_far = before.push(SectionView { name, fields: fewer });
        assert(shown.drop_last() =~= Seq::empty());
        assert(after_lines(so_far, shown.drop_last()) == so_far);
        assert(so_far.drop_last() =~= before);
        assert(fewer.push(last) =~= fields);
    }
}

/// The lines of a section start it, and say of it what the lines of its fields
/// say.
proof fn lemma_section_lines(before: Seq<SectionView>, section: SectionView)
    requires
        is_one_line(section.name),
        fields_text(section.fields).len() > 0 ==> fields_text(section.fields).last() == '\n',
    ensures
        section_text(section).last() == '\n',
        section_text(section).len() > 0,
        after_lines(before, lines_of(section_text(section))) == after_lines(
            before.push(SectionView { name: section.name, fields: Seq::empty() }),
            lines_of(fields_text(section.fields)),
        ),
{
    reveal_strlit("\n");
    reveal_strlit("[");
    reveal_strlit("]\n");
    let header = "["@ + section.name + seq![']'];
    assert forall|j: int| 0 <= j < header.len() implies header[j] != '\n' by {
        if 0 < j < header.len() - 1 {
            assert(header[j] == section.name[j - 1]);
            assert(section.name.contains(section.name[j - 1]));
        }
    }
    lemma_one_line(header);
    let body = fields_text(section.fields);
    assert("]\n"@ =~= seq![']'] + "\n"@);
    assert(section_text(section) =~= (header + "\n"@) + (body + "\n"@));
    lemma_lines_of_two(header + "\n"@, body + "\n"@);
    lemma_lines_of_two(body, "\n"@);
    let empty = Seq::<char>::empty();
    assert("\n"@ =~= empty + "\n"@);
    lemma_one_line(empty);
    let top = seq![without_return(header)];
    let bottom = seq![without_return(empty)];
    lemma_after_lines_of_two(before, top, lines_of(body) + bottom);
    assert(without_return(header) == header);
    assert(trimmed(header) == header) by {
        assert(trimmed_start(header) == header);
    }
    assert(header_name(header) =~= section.name);
    let started = before.push(SectionView { name: section.name, fields: Seq::empty() });
    assert(top.drop_last() =~= Seq::empty());
    assert(after_lines(before, top.drop_last()) == before);
    assert(after_lines(before, top) == started);
    lemma_after_lines_of_two(started, lines_of(body), bottom);
    let done = after_lines(started, lines_of(body));
    assert(bottom.drop_last() =~= Seq::empty());
    assert(after_lines(done, bottom.drop_last()) == done);
    assert(trimmed(empty) == empty);
    assert(field_of(empty) is None);
}

/// A clean section is read back from its lines.
proof fn lemma_section_reads_back(before: Seq<SectionView>, section: SectionView)
    requires
        is_clean(section),
    ensures
        section_text(section).last() == '\n',
        section_text(section).len() > 0,
        after_lines(before, lines_of(section_text(section))) == before.push(section),
{
    lemma_fields_read_back(before, section.name, section.fields);
    lemma_section_lines(before, section);
}

/// What is written is read back: the sections of the file for clean sections
/// are those sections.
pub proof fn law_written_sections_read_back(sections: Seq<SectionView>)
    requires
        are_clean(sections),
    ensures
        sections_of(written(sections)) == sections,
    decreases sections.len(),
{
    lemma_written_ends_a_line(sections);
    if sections.len() == 0 {
        assert(sections =~= Seq::empty());
    } else {
        let fewer = sections.drop_last();
        assert forall|i: int| 0 <= i < fewer.len() implies is_clean(#[trigger] fewer[i]) by {
            assert(is_clean(sections[i]));
        }
        law_written_sections_read_back(fewer);
        lemma_written_ends_a_line(fewer);
        assert(is_clean(sections[sections.len() - 1]));
        lemma_section_reads_back(fewer, sections.last());
        lemma_lines_of_two(written(fewer), section_text(sections.last()));
        lemma_after_lines_of_two(
            Seq::empty(),
            lines_of(written(fewer)),
            lines_of(section_text(sections.last())),
        );
        assert(fewer.push(sections.last()) =~= sections);
    }
}

proof fn lemma_written_ends_a_line(sections: Seq<SectionView>)
    ensures
        written(sections).len() > 0 ==> written(sections).last() == '\n',
{
    if sections.len() > 0 {
        reveal_strlit("\n");
        let text = section_text(sections.last());
        assert(text.last() == '\n');
        assert(written(sections).last() == text.last());
    }
}

/// What is read of a trimmed line can be written and read back.
proof fn lemma_line_reads_clean(line: Seq<char>)
    requires
        is_trimmed(line),
        !line.contains('\n'),
    ensures
        is_header(line) ==> !header_name(line).contains('\n'),
        !is_header(line) && field_of(line) is Some ==> is_clean_field(field_of(line)->0),
{
    if is_header(line) {
        let name = header_name(line);
        assert forall|j: int| 0 <= j < name.len() implies name[j] != '\n' by {
            assert(name[j] == line[j + 1]);
        }
    } else if field_of(line) is Some {
        lemma_first_at(line, '=');
        let k = first_at(line, '=')->0;
        let (key, value) = field_of(line)->0;
        let left = line.take(k);
        let right = line.skip(k + 1);
        lemma_trimmed(left);
        lemma_trimmed(right);
        let (from, to) = choose|from: int, to: int|
            0 <= from <= to <= left.len() && trimmed(left) == #[trigger] left.subrange(from, to);
        assert forall|j: int| 0 <= j < key.len() implies key[j] != '=' && key[j] != '\n' by {
            assert(key[j] == line[from + j]);
            assert(line.contains(line[from + j]));
        }
        let (begin, end) = choose|from: int, to: int|
            0 <= from <= to <= right.len() && trimmed(right) == #[trigger] right.subrange(
                from,
                to,
            );
        assert forall|j: int| 0 <= j < value.len() implies value[j] != '\n' by {
            assert(value[j] == line[k + 1 + begin + j]);
            assert(line.contains(line[k + 1 + begin + j]));
        }
        assert(key[0] == line[0]) by {
            assert(left.len() > 0);
            assert(left[0] == line[0]);
            let skipped = lemma_trimmed_start(left);
            let kept = lemma_trimmed_end(left.skip(skipped));
            assert(left.skip(0) =~= left);
        }
        if value.len() > 0 {
            let skipped = lemma_trimmed_start(right);
            let tail = right.skip(skipped);
            let kept = lemma_trimmed_end(tail);
            assert(tail.last() == line.last());
            assert(value.last() == line.last());
        }
    }
}

proof fn lemma_lines_read_clean(lines: Seq<Seq<char>>)
    requires
        forall|i: int| 0 <= i < lines.len() ==> !(#[trigger] lines[i]).contains('\n'),
    ensures
        are_clean(after_lines(Seq::empty(), lines)),
    decreases lines.len(),
{
    if lines.len() > 0 {
        let fewer = lines.drop_last();
        assert forall|i: int| 0 <= i < fewer.len() implies !(#[trigger] fewer[i]).contains(
            '\n',
        ) by {
            assert(!lines[i].contains('\n'));
        }
        lemma_lines_read_clean(fewer);
        let before = after_lines(Seq::empty(), fewer);
        let raw = lines[lines.len() - 1];
        assert(!raw.contains('\n'));
        lemma_trimmed(raw);
        let line = trimmed(raw);
        let (from, to) = choose|from: int, to: int|
            0 <= from <= to <= raw.len() && line == #[trigger] raw.subrange(from, to);
        assert forall|j: int| 0 <= j < line.len() implies line[j] != '\n' by {
            assert(line[j] == raw[from + j]);
            assert(raw.contains(raw[from + j]));
        }
        lemma_line_reads_clean(line);
        let now = after_line(before, line);
        assert forall|i: int| 0 <= i < now.len() implies is_clean(#[trigger] now[i]) by {
            if is_header(line) {
                if i < before.len() {
                    assert(now[i] == before[i]);
                }
            } else if before.len() > 0 && field_of(line) is Some {
                if i < before.len() - 1 {
                    assert(now[i] == before[i]);
                } else {
                    let last = before[before.len() - 1];
                    assert(is_clean(last));
                    assert forall|f: int| 0 <= f < now[i].fields.len() implies is_clean_field(
                        #[trigger] now[i].fields[f],
                    ) by {
                        if f < last.fields.len() {
                            assert(now[i].fields[f] == last.fields[f]);
                        }
                    }
                }
            } else {
                assert(now[i] == before[i]);
            }
        }
    }
}

/// Whatever is read can be written and read back.
pub proof fn law_read_sections_are_clean(content: Seq<char>)
    ensures
        are_clean(sections_of(content)),
{
    lemma_lines_hold_no_feed(content);
    lemma_lines_read_clean(lines_of(content));
}

/// Writing what was read and reading it again changes nothing.
pub proof fn law_rewriting_keeps_the_sections(content: Seq<char>)
    ensures
        sections_of(written(sections_of(content))) == sections_of(content),
{
    law_read_sections_are_clean(content);
    law_written_sections_read_back(sections_of(content));
}

// ── Configured backends ──────────────────────────────────────────────────────

/// A configured backend.
#[derive(Debug)]
pub struct ConfiguredBackend {
    pub name: String,
    pub module: String,
}

/// The value of the first field with a key.
pub open spec fn value_of(fields: Seq<(Seq<char>, Seq<char>)>, key: Seq<char>) -> Option<Seq<char>>
    decreases fields.len(),
{
    if fields.len() == 0 {
        None
    } else if fields[0].0 == key {
        Some(fields[0].1)
    } else {
        value_of(fields.drop_first(), key)
    }
}

/// The module of a backend: what its section says, or its own name.
pub open spec fn module_of(section: SectionView) -> Seq<char> {
    match value_of(section.fields, "_module"@) {
        Some(module) => module,
        None => section.name,
    }
}

fn find_module(section: &Section) -> (module: String)
    ensures
        module@ == module_of(section@),
{
    let ghost views = field_views(section.fields@);
    assert(views.skip(0) =~= views);
    for i in 0..section.fields.len()
        invariant
            views == field_views(section.fields@),
            value_of(views, "_module"@) == value_of(views.skip(i as int), "_module"@),
    {
        assert(views[i as int].0 == section.fields@[i as int].0@);
        if same_text(section.fields[i].0.as_str(), "_module") {
            return section.fields[i].1.clone();
        }
        assert(views.skip(i as int).drop_first() =~= views.skip(i + 1));
    }
    section.name.clone()
}

/// The backends of sections: the name and the module of each.
pub open spec fn listed(sections: Seq<SectionView>) -> Seq<(Seq<char>, Seq<char>)> {
    sections.map_values(|section: SectionView| (section.name, module_of(section)))
}

/// Backends without those of one name.
pub open spec fn without_listed(
    backends: Seq<(Seq<char>, Seq<char>)>,
    name: Seq<char>,
) -> Seq<(Seq<char>, Seq<char>)> {
    backends.filter(|backend: (Seq<char>, Seq<char>)| backend.0 != name)
}

/// The views of a list of backends.
pub open spec fn backend_views(backends: Seq<ConfiguredBackend>) -> Seq<(Seq<char>, Seq<char>)> {
    backends.map_values(|backend: ConfiguredBackend| (backend.name@, backend.module@))
}

/// The backends that a file configures, in their order.
pub fn configured_backends(content: &str) -> (backends: Vec<ConfiguredBackend>)
    ensures
        backend_views(backends@) == listed(sections_of(content@)),
{
    let sections = parse_ini(content);
    let mut backends: Vec<ConfiguredBackend> = Vec::new();
    for i in 0..sections.len()
        invariant
            backends@.len() == i,
            forall|k: int|
                0 <= k < i ==> (#[trigger] backends@[k]).name@ == sections@[k].name@
                    && backends@[k].module@ == module_of(sections@[k]@),
    {
        let section = &sections[i];
        backends.push(
            ConfiguredBackend { name: section.name.clone(), module: find_module(section) },
        );
    }
    proof {
        let views = section_views(sections@);
        assert forall|k: int| 0 <= k < views.len() implies backend_views(backends@)[k] == listed(
            views,
        )[k] by {
            assert(views[k] == sections@[k]@);
            assert(backends@[k].name@ == sections@[k].name@);
        }
        assert(backend_views(backends@) =~= listed(views));
    }
    backends
}

// ── Credentials ──────────────────────────────────────────────────────────────

/// Whether a key is one of Woob's own.
pub open spec fn is_own_key(key: Seq<char>) -> bool {
    key.len() > 0 && key[0] == '_'
}

/// Whether a value is a command.
pub open spec fn is_command(value: Seq<char>) -> bool {
    value.len() > 0 && value[0] == '`' && value.last() == '`'
}

/// Whether a field is a credential in plain text.
pub open spec fn is_plain_text(field: (Seq<char>, Seq<char>)) -> bool {
    !is_own_key(field.0) && !is_command(field.1)
}

/// Whether any of some fields is a credential in plain text.
pub open spec fn has_plain_text(fields: Seq<(Seq<char>, Seq<char>)>) -> bool {
    exists|i: int| 0 <= i < fields.len() && is_plain_text(#[trigger] fields[i])
}

fn key_is_own(key: &String) -> (r: bool)
    ensures
        r == is_own_key(key@),
{
    let chars = characters(key.as_str());
    chars.len() > 0 && chars[0] == '_'
}

fn value_is_command(value: &String) -> (r: bool)
    ensures
        r == is_command(value@),
{
    let chars = characters(value.as_str());
    chars.len() > 0 && chars[0] == '`' && chars[chars.len() - 1] == '`'
}

/// Whether a section has credentials in plain text.
pub fn section_has_plain_text(fields: &Vec<(String, String)>) -> (r: bool)
    ensures
        r == has_plain_text(field_views(fields@)),
{
    let ghost views = field_views(fields@);
    for i in 0..fields.len()
        invariant
            views == field_views(fields@),
            forall|k: int| 0 <= k < i ==> !is_plain_text(#[trigger] views[k]),
    {
        assert(views[i as int] == (fields@[i as int].0@, fields@[i as int].1@));
        if !key_is_own(&fields[i].0) && !value_is_command(&fields[i].1) {
            return true;
        }
    }
    false
}

/// Whether any section has credentials in plain text.
pub open spec fn needs_migration_of(sections: Seq<SectionView>) -> bool {
    exists|i: int| 0 <= i < sections.len() && has_plain_text((#[trigger] sections[i]).fields)
}

/// Whether a backends file has credentials in plain text.
pub fn needs_migration(content: &str) -> (r: bool)
    ensures
        r == needs_migration_of(sections_of(content@)),
{
    let sections = parse_ini(content);
    let ghost views = section_views(sections@);
    for i in 0..sections.len()
        invariant
            views == section_views(sections@),
            views == sections_of(content@),
            forall|k: int| 0 <= k < i ==> !has_plain_text((#[trigger] views[k]).fields),
    {
        assert(views[i as int] == sections@[i as int]@);
        if section_has_plain_text(&sections[i].fields) {
            assert(has_plain_text(views[i as int].fields));
            return true;
        }
    }
    false
}

/// The key under which a credential is kept.
pub open spec fn keychain_key(backend: Seq<char>, field: Seq<char>) -> Seq<char> {
    "woob_"@ + lowercase(backend) + "_"@ + lowercase(field)
}

/// The service under which the keychain has a key.
pub open spec fn keychain_service(key: Seq<char>) -> Seq<char> {
    "wealthfolio_"@ + lowercase(key)
}

/// The key under which a credential is kept.
pub fn keychain_key_for(backend: &str, field: &str) -> (key: String)
    ensures
        key@ == keychain_key(backend@, field@),
        is_one_line(backend@) && is_one_line(field@) ==> is_one_line(key@),
{
    proof {
        reveal_strlit("woob_");
        reveal_strlit("_");
    }
    let lower_backend = text_to_lowercase(backend);
    let lower_field = text_to_lowercase(field);
    let start = chain("woob_", lower_backend.as_str());
    let key = chain(chain(start.as_str(), "_").as_str(), lower_field.as_str());
    proof {
        lemma_one_line_of_two("woob_"@, lower_backend@);
        lemma_one_line_of_two("woob_"@ + lower_backend@, "_"@);
        lemma_one_line_of_two("woob_"@ + lower_backend@ + "_"@, lower_field@);
    }
    key
}

/// The service under which the keychain has a key.
pub fn keychain_service_for(key: &str) -> (service: String)
    ensures
        service@ == keychain_service(key@),
{
    chain("wealthfolio_", text_to_lowercase(key).as_str())
}

/// The value by which Woob has a secret from the keychain: a command that runs
/// the helper script.
pub open spec fn command_of(python: Seq<char>, helper: Seq<char>, key: Seq<char>) -> Seq<char> {
    "`"@ + python + " "@ + helper + " "@ + key + "`"@
}

fn command_for(python: &str, helper: &str, key: &str) -> (command: String)
    ensures
        command@ == command_of(python@, helper@, key@),
{
    let first = chain(chain("`", python).as_str(), " ");
    let second = chain(chain(first.as_str(), helper).as_str(), " ");
    chain(chain(second.as_str(), key).as_str(), "`")
}

/// A value that stands between backquotes is a command.
proof fn lemma_command_is_command(python: Seq<char>, helper: Seq<char>, key: Seq<char>)
    ensures
        is_command(command_of(python, helper, key)),
{
    reveal_strlit("`");
}

// ── Setting up ───────────────────────────────────────────────────────────────

/// Secrets for the keychain, each with its key, and what the backends file is
/// to hold once they are there.
#[derive(Debug)]
pub struct BackendUpdate {
    pub secrets: Vec<(String, String)>,
    pub content: String,
}

/// Sections without those of one name.
pub open spec fn without_backend(sections: Seq<SectionView>, name: Seq<char>) -> Seq<SectionView> {
    sections.filter(|section: SectionView| section.name != name)
}

/// The fields by which Woob has credentials from the keychain.
pub open spec fn credential_fields(
    backend: Seq<char>,
    credentials: Seq<(Seq<char>, Seq<char>)>,
    python: Seq<char>,
    helper: Seq<char>,
) -> Seq<(Seq<char>, Seq<char>)> {
    credentials.map_values(
        |credential: (Seq<char>, Seq<char>)|
            (
                credential.0,
                command_of(python, helper, keychain_key(backend, credential.0)),
            ),
    )
}

/// The secrets of credentials, each with the key under which it is kept.
pub open spec fn credential_secrets(
    backend: Seq<char>,
    credentials: Seq<(Seq<char>, Seq<char>)>,
) -> Seq<(Seq<char>, Seq<char>)> {
    credentials.map_values(
        |credential: (Seq<char>, Seq<char>)|
            (keychain_key(backend, credential.0), credential.1),
    )
}

/// The section of a backend whose credentials are in the keychain: the module
/// first, then each credential.
pub open spec fn backend_section(
    backend: Seq<char>,
    module: Seq<char>,
    credentials: Seq<(Seq<char>, Seq<char>)>,
    python: Seq<char>,
    helper: Seq<char>,
) -> SectionView {
    SectionView {
        name: backend,
        fields: seq![("_module"@, module)] + credential_fields(backend, credentials, python,
            helper),
    }
}

/// The sections without those of one name, in their order.
fn retain_others(sections: Vec<Section>, name: &String) -> (others: Vec<Section>)
    ensures
        section_views(others@) == without_backend(section_views(sections@), name@),
{
    let ghost views = section_views(sections@);
    let mut others: Vec<Section> = Vec::new();
    proof {
        reveal(Seq::filter);
        assert(section_views(others@) =~= without_backend(views.take(0), name@));
    }
    for i in 0..sections.len()
        invariant
            views == section_views(sections@),
            section_views(others@) == without_backend(views.take(i as int), name@),
    {
        let ghost before = others@;
        if sections[i].name != *name {
            let section = copy_section(&sections[i]);
            others.push(section);
            assert(section_views(others@) =~= section_views(before).push(section@));
        }
        proof {
            reveal(Seq::filter);
            assert(views.take(i + 1).drop_last() =~= views.take(i as int));
            assert(views[i as int] == sections@[i as int]@);
            assert(without_backend(views.take(i + 1), name@) =~= section_views(others@));
        }
    }
    assert(views.take(views.len() as int) =~= views);
    others
}

fn copy_section(section: &Section) -> (copy: Section)
    ensures
        copy@ == section@,
{
    let mut fields: Vec<(String, String)> = Vec::new();
    let ghost views = field_views(section.fields@);
    for i in 0..section.fields.len()
        invariant
            views == field_views(section.fields@),
            field_views(fields@) == views.take(i as int),
    {
        let ghost before = fields@;
        fields.push((section.fields[i].0.clone(), section.fields[i].1.clone()));
        proof {
            let next = (section.fields@[i as int].0@, section.fields@[i as int].1@);
            assert(field_views(fields@) =~= field_views(before).push(next));
            assert(views.take(i + 1) =~= views.take(i as int).push(next));
        }
    }
    assert(field_views(fields@) =~= views);
    Section { name: section.name.clone(), fields }
}

/// Sets a backend up: its credentials go to the keychain, and the backends file
/// has its section at the end, in place of any of the same name.
///
/// The new file configures the backends of the old one without any of that
/// name, and then the backend with its module, where each text fits a line of
/// the file and no white space stands around the module.
pub fn setup_backend(
    existing: &str,
    backend: &String,
    module: &String,
    credentials: &Vec<(String, String)>,
    python: &str,
    helper: &str,
) -> (update: BackendUpdate)
    ensures
        field_views(update.secrets@) == credential_secrets(backend@, field_views(credentials@)),
        update.secrets@.len() == credentials@.len(),
        forall|k: int|
            0 <= k < credentials@.len() ==> (#[trigger] update.secrets@[k]).0@ == "woob_"@
                + lowercase(backend@) + "_"@ + lowercase(credentials@[k].0@)
                && update.secrets@[k].1@ == credentials@[k].1@,
        update.content@ == written(
            without_backend(sections_of(existing@), backend@).push(
                backend_section(
                    backend@,
                    module@,
                    field_views(credentials@),
                    python@,
                    helper@,
                ),
            ),
        ),
        is_one_line(backend@) && is_one_line(module@) && is_trimmed(module@) && is_one_line(python@)
            && is_one_line(helper@) && (forall|k: int|
            0 <= k < credentials@.len() ==> is_one_line((#[trigger] credentials@[k]).0@))
                ==> listed(
            sections_of(update.content@),
        ) == without_listed(listed(sections_of(existing@)), backend@).push((backend@, module@)),
{
    let mut sections = retain_others(parse_ini(existing), backend);
    let ghost is_plain = is_one_line(backend@) && is_one_line(module@) && is_trimmed(module@)
        && is_one_line(python@) && is_one_line(helper@) && (forall|k: int|
        0 <= k < credentials@.len() ==> is_one_line((#[trigger] credentials@[k]).0@));
    let ghost kept = sections@;
    let ghost views = field_views(credentials@);
    let ghost owed = credential_fields(backend@, views, python@, helper@);
    let ghost owed_secrets = credential_secrets(backend@, views);
    let mut fields: Vec<(String, String)> = Vec::new();
    let mut secrets: Vec<(String, String)> = Vec::new();
    fields.push(("_module".to_owned(), module.clone()));
    proof {
        assert(field_views(fields@) =~= seq![("_module"@, module@)] + owed.take(0));
        assert(field_views(secrets@) =~= owed_secrets.take(0));
    }
    for i in 0..credentials.len()
        invariant
            views == field_views(credentials@),
            owed == credential_fields(backend@, views, python@, helper@),
            owed_secrets == credential_secrets(backend@, views),
            field_views(fields@) == seq![("_module"@, module@)] + owed.take(i as int),
            field_views(secrets@) == owed_secrets.take(i as int),
            is_plain ==> is_one_line(backend@) && is_one_line(python@) && is_one_line(helper@) && (
            forall|k: int|
                0 <= k < credentials@.len() ==> is_one_line((#[trigger] credentials@[k]).0@)),
            is_plain ==> forall|k: int| 0 <= k < i ==> is_command_field(#[trigger] owed[k]),
    {
        let ghost fields_before = fields@;
        let ghost secrets_before = secrets@;
        let key = keychain_key_for(backend.as_str(), credentials[i].0.as_str());
        let command = command_for(python, helper, key.as_str());
        fields.push((credentials[i].0.clone(), command));
        secrets.push((key, credentials[i].1.clone()));
        proof {
            assert(views[i as int] == (credentials@[i as int].0@, credentials@[i as int].1@));
            let field = (credentials@[i as int].0@, command@);
            let secret = (key@, credentials@[i as int].1@);
            assert(field_views(fields@) =~= field_views(fields_before).push(field));
            assert(owed.take(i + 1) =~= owed.take(i as int).push(field));
            assert(seq![("_module"@, module@)] + owed.take(i + 1) =~= (seq![
                ("_module"@, module@),
            ] + owed.take(i as int)).push(field));
            assert(field_views(secrets@) =~= field_views(secrets_before).push(secret));
            assert(owed_secrets.take(i + 1) =~= owed_secrets.take(i as int).push(secret));
            if is_plain {
                assert(is_one_line(credentials@[i as int].0@));
                lemma_command_is_clean(python@, helper@, key@);
                lemma_command_is_command(python@, helper@, key@);
                assert(owed[i as int] == field);
            }
        }
    }
    assert(owed.take(owed.len() as int) =~= owed);
    assert(field_views(secrets@) =~= owed_secrets);
    let section = Section { name: backend.clone(), fields };
    sections.push(section);
    assert(section_views(sections@) =~= section_views(kept).push(section@));
    proof {
        assert forall|k: int| 0 <= k < credentials@.len() implies (
        #[trigger] secrets@[k]).0@ == "woob_"@ + lowercase(backend@) + "_"@ + lowercase(
            credentials@[k].0@,
        ) && secrets@[k].1@ == credentials@[k].1@ by {
            assert(field_views(secrets@)[k] == owed_secrets[k]);
            assert(views[k] == (credentials@[k].0@, credentials@[k].1@));
        }
        if is_plain {
            let fields = section@.fields;
            assert forall|k: int| 1 <= k < fields.len() implies is_command_field(
                #[trigger] fields[k],
            ) by {
                assert(fields[k] == owed[k - 1]);
            }
            lemma_set_up_is_listed(existing@, section@, module@);
        }
    }
    BackendUpdate { secrets, content: write_ini(&sections) }
}

// ── Deleting ─────────────────────────────────────────────────────────────────

/// What is to be removed from the keychain, and what the backends file is to
/// hold then.
#[derive(Debug)]
pub struct BackendRemoval {
    pub services: Vec<String>,
    pub content: String,
}

/// The services of the credentials among fields.
pub open spec fn field_services(
    backend: Seq<char>,
    fields: Seq<(Seq<char>, Seq<char>)>,
) -> Seq<Seq<char>> {
    fields.filter(|field: (Seq<char>, Seq<char>)| !is_own_key(field.0)).map_values(
        |field: (Seq<char>, Seq<char>)| keychain_service(keychain_key(backend, field.0)),
    )
}

/// The services of the credentials of a backend, over all its sections.
pub open spec fn backend_services(sections: Seq<SectionView>, backend: Seq<char>) -> Seq<Seq<char>>
    decreases sections.len(),
{
    if sections.len() == 0 {
        Seq::empty()
    } else {
        let before = backend_services(sections.drop_last(), backend);
        if sections.last().name == backend {
            before + field_services(backend, sections.last().fields)
        } else {
            before
        }
    }
}

fn collect_services(backend: &String, fields: &Vec<(String, String)>) -> (services: Vec<String>)
    ensures
        texts(services@) == field_services(backend@, field_views(fields@)),
{
    let ghost views = field_views(fields@);
    let mut services: Vec<String> = Vec::new();
    proof {
        reveal(Seq::filter);
        assert(texts(services@) =~= field_services(backend@, views.take(0)));
    }
    for i in 0..fields.len()
        invariant
            views == field_views(fields@),
            texts(services@) == field_services(backend@, views.take(i as int)),
    {
        let ghost before = services@;
        if !key_is_own(&fields[i].0) {
            let key = keychain_key_for(backend.as_str(), fields[i].0.as_str());
            let service = keychain_service_for(key.as_str());
            services.push(service);
            assert(texts(services@) =~= texts(before).push(service@));
        }
        proof {
            reveal(Seq::filter);
            assert(views.take(i + 1).drop_last() =~= views.take(i as int));
            assert(views[i as int].0 == fields@[i as int].0@);
            assert(field_services(backend@, views.take(i + 1)) =~= texts(services@));
        }
    }
    assert(views.take(views.len() as int) =~= views);
    services
}

/// Deletes a backend: its credentials go from the keychain, and its sections
/// from the backends file, which then configures every other as before.
pub fn delete_backend(content: &str, backend: &String) -> (removal: BackendRemoval)
    ensures
        texts(removal.services@) == backend_services(sections_of(content@), backend@),
        removal.content@ == written(without_backend(sections_of(content@), backend@)),
        listed(sections_of(removal.content@)) == without_listed(
            listed(sections_of(content@)),
            backend@,
        ),
{
    proof {
        law_deleting_leaves_the_others(content@, backend@);
        lemma_listed_without(sections_of(content@), backend@);
    }
    let sections = parse_ini(content);
    let ghost views = section_views(sections@);
    let mut services: Vec<String> = Vec::new();
    assert(texts(services@) =~= backend_services(views.take(0), backend@));
    for i in 0..sections.len()
        invariant
            views == section_views(sections@),
            texts(services@) == backend_services(views.take(i as int), backend@),
    {
        proof {
            assert(views.take(i + 1).drop_last() =~= views.take(i as int));
            assert(views[i as int] == sections@[i as int]@);
        }
        if sections[i].name == *backend {
            let more = collect_services(backend, &sections[i].fields);
            let ghost before = services@;
            for k in 0..more.len()
                invariant
                    texts(services@) == texts(before) + texts(more@).take(k as int),
            {
                let ghost so_far = services@;
                services.push(more[k].clone());
                assert(texts(services@) =~= texts(so_far).push(more@[k as int]@));
                assert(texts(more@).take(k + 1) =~= texts(more@).take(k as int).push(
                    more@[k as int]@,
                ));
            }
            assert(texts(more@).take(more@.len() as int) =~= texts(more@));
        }
    }
    assert(views.take(views.len() as int) =~= views);
    let others = retain_others(sections, backend);
    BackendRemoval { services, content: write_ini(&others) }
}

// ── Migrating ────────────────────────────────────────────────────────────────

/// A field after the migration. Of Woob's own keys only the module stays, a
/// command stays as it is, and a credential in plain text becomes a command,
/// marked as one.
pub open spec fn migrated_field(
    backend: Seq<char>,
    field: (Seq<char>, Seq<char>),
    python: Seq<char>,
    helper: Seq<char>,
) -> Seq<(Seq<char>, Seq<char>)> {
    if is_own_key(field.0) {
        if field.0 == "_module"@ {
            seq![field]
        } else {
            Seq::empty()
        }
    } else if is_command(field.1) {
        seq![field]
    } else {
        seq![
            (field.0, command_of(python, helper, keychain_key(backend, field.0))),
            ("_"@ + field.0, "c"@),
        ]
    }
}

/// Fields after the migration.
pub open spec fn migrated_fields(
    backend: Seq<char>,
    fields: Seq<(Seq<char>, Seq<char>)>,
    python: Seq<char>,
    helper: Seq<char>,
) -> Seq<(Seq<char>, Seq<char>)>
    decreases fields.len(),
{
    if fields.len() == 0 {
        Seq::empty()
    } else {
        migrated_fields(backend, fields.drop_last(), python, helper) + migrated_field(
            backend,
            fields.last(),
            python,
            helper,
        )
    }
}

/// Sections after the migration.
pub open spec fn migrated(
    sections: Seq<SectionView>,
    python: Seq<char>,
    helper: Seq<char>,
) -> Seq<SectionView> {
    sections.map_values(
        |section: SectionView|
            SectionView {
                name: section.name,
                fields: migrated_fields(section.name, section.fields, python, helper),
            },
    )
}

/// The secrets that the migration of fields puts into the keychain.
pub open spec fn migrated_secrets(
    backend: Seq<char>,
    fields: Seq<(Seq<char>, Seq<char>)>,
) -> Seq<(Seq<char>, Seq<char>)> {
    fields.filter(|field: (Seq<char>, Seq<char>)| is_plain_text(field)).map_values(
        |field: (Seq<char>, Seq<char>)| (keychain_key(backend, field.0), field.1),
    )
}

/// The secrets that the migration of sections puts into the keychain.
pub open spec fn all_migrated_secrets(sections: Seq<SectionView>) -> Seq<(Seq<char>, Seq<char>)>
    decreases sections.len(),
{
    if sections.len() == 0 {
        Seq::empty()
    } else {
        all_migrated_secrets(sections.drop_last()) + migrated_secrets(
            sections.last().name,
            sections.last().fields,
        )
    }
}

/// Migrates the fields of one section, the secrets behind others.
fn migrate_fields(
    section: &Section,
    python: &str,
    helper: &str,
    secrets: &mut Vec<(String, String)>,
) -> (fields: Vec<(String, String)>)
    ensures
        field_views(fields@) == migrated_fields(
            section.name@,
            field_views(section.fields@),
            python@,
            helper@,
        ),
        field_views(final(secrets)@) == field_views(old(secrets)@) + migrated_secrets(
            section.name@,
            field_views(section.fields@),
        ),
        is_one_line(section.name@) ==> forall|f: int|
            0 <= f < section.fields@.len() && is_plain_text(#[trigger] section@.fields[f])
                && is_one_line(section@.fields[f].0) ==> is_one_line(
                keychain_key(section.name@, section@.fields[f].0),
            ),
{
    let ghost views = field_views(section.fields@);
    let ghost kept = field_views(secrets@);
    let mut fields: Vec<(String, String)> = Vec::new();
    proof {
        reveal(Seq::filter);
        assert(field_views(fields@) =~= Seq::empty());
        assert(kept =~= kept + migrated_secrets(section.name@, views.take(0)));
    }
    for i in 0..section.fields.len()
        invariant
            views == field_views(section.fields@),
            field_views(fields@) == migrated_fields(
                section.name@,
                views.take(i as int),
                python@,
                helper@,
            ),
            field_views(secrets@) == kept + migrated_secrets(section.name@, views.take(i as int)),
            is_one_line(section.name@) ==> forall|f: int|
                0 <= f < i && is_plain_text(#[trigger] views[f]) && is_one_line(views[f].0)
                    ==> is_one_line(keychain_key(section.name@, views[f].0)),
    {
        let ghost before = fields@;
        let ghost secrets_before = secrets@;
        let key = &section.fields[i].0;
        let value = &section.fields[i].1;
        proof {
            assert(views.take(i + 1).drop_last() =~= views.take(i as int));
            assert(views[i as int] == (key@, value@));
        }
        let ghost added = migrated_field(section.name@, (key@, value@), python@, helper@);
        if key_is_own(key) {
            if same_text(key.as_str(), "_module") {
                fields.push((key.clone(), value.clone()));
                assert(field_views(fields@) =~= field_views(before) + added);
            } else {
                assert(field_views(fields@) =~= field_views(before) + added);
            }
        } else if value_is_command(value) {
            fields.push((key.clone(), value.clone()));
            assert(field_views(fields@) =~= field_views(before) + added);
        } else {
            let keychain_key = keychain_key_for(section.name.as_str(), key.as_str());
            let command = command_for(python, helper, keychain_key.as_str());
            fields.push((key.clone(), command));
            fields.push((chain("_", key.as_str()), "c".to_owned()));
            assert(field_views(fields@) =~= field_views(before) + added);
            let ghost secret = (keychain_key@, value@);
            secrets.push((keychain_key, value.clone()));
            assert(field_views(secrets@) =~= field_views(secrets_before).push(secret));
        }
        proof {
            reveal(Seq::filter);
            assert(kept + migrated_secrets(section.name@, views.take(i + 1)) =~= field_views(
                secrets@,
            ));
        }
    }
    assert(views.take(views.len() as int) =~= views);
    fields
}

/// Migrates every credential in plain text to the keychain: the secret goes
/// there, and a command takes its place in the backends file, marked as one.
///
/// Nothing that is read of the new file is a credential in plain text, whatever
/// the old one held, unless a path holds a line feed, which no line of the file
/// can hold.
pub fn migrate_to_keychain(content: &str, python: &str, helper: &str) -> (update: BackendUpdate)
    ensures
        field_views(update.secrets@) == all_migrated_secrets(sections_of(content@)),
        update.content@ == written(migrated(sections_of(content@), python@, helper@)),
        is_one_line(python@) && is_one_line(helper@) ==> !needs_migration_of(
            sections_of(update.content@),
        ),
{
    let sections = parse_ini(content);
    proof {
        law_read_sections_are_clean(content@);
    }
    let ghost views = section_views(sections@);
    let ghost owed = migrated(views, python@, helper@);
    let mut secrets: Vec<(String, String)> = Vec::new();
    let mut done: Vec<Section> = Vec::new();
    proof {
        assert(field_views(secrets@) =~= all_migrated_secrets(views.take(0)));
        assert(section_views(done@) =~= owed.take(0));
    }
    for i in 0..sections.len()
        invariant
            views == section_views(sections@),
            owed == migrated(views, python@, helper@),
            field_views(secrets@) == all_migrated_secrets(views.take(i as int)),
            section_views(done@) == owed.take(i as int),
            are_clean(views),
            forall|j: int, f: int|
                0 <= j < i && 0 <= f < views[j].fields.len() && is_plain_text(
                    #[trigger] views[j].fields[f],
                ) ==> is_one_line(keychain_key(views[j].name, views[j].fields[f].0)),
    {
        let ghost before = done@;
        proof {
            assert(views.take(i + 1).drop_last() =~= views.take(i as int));
            assert(views[i as int] == sections@[i as int]@);
        }
        let ghost section_view = views[i as int];
        assert(is_clean(section_view));
        let fields = migrate_fields(&sections[i], python, helper, &mut secrets);
        let section = Section { name: sections[i].name.clone(), fields };
        done.push(section);
        assert(section_views(done@) =~= section_views(before).push(section@));
        assert(owed.take(i + 1) =~= owed.take(i as int).push(section@));
    }
    assert(views.take(views.len() as int) =~= views);
    assert(section_views(done@) =~= owed);
    proof {
        if is_one_line(python@) && is_one_line(helper@) {
            lemma_migrated_file_needs_no_migration(content@, python@, helper@);
        }
    }
    BackendUpdate { secrets, content: write_ini(&done) }
}

// ── What holds of it all ─────────────────────────────────────────────────────

/// The sections that are kept are clean where all of them were.
proof fn lemma_others_are_clean(sections: Seq<SectionView>, name: Seq<char>)
    requires
        are_clean(sections),
    ensures
        are_clean(without_backend(sections, name)),
        forall|i: int|
            0 <= i < without_backend(sections, name).len() ==> (#[trigger] without_backend(
                sections,
                name,
            )[i]).name != name,
    decreases sections.len(),
{
    reveal(Seq::filter);
    if sections.len() > 0 {
        let fewer = sections.drop_last();
        assert forall|i: int| 0 <= i < fewer.len() implies is_clean(#[trigger] fewer[i]) by {
            assert(is_clean(sections[i]));
        }
        lemma_others_are_clean(fewer, name);
        assert(is_clean(sections[sections.len() - 1]));
    }
}

/// Deleting a backend takes it out of the file and leaves every other as it
/// was, in its order.
pub proof fn law_deleting_leaves_the_others(content: Seq<char>, backend: Seq<char>)
    ensures
        ({
            let others = without_backend(sections_of(content), backend);
            &&& sections_of(written(others)) == others
            &&& forall|i: int| 0 <= i < others.len() ==> (#[trigger] others[i]).name != backend
        }),
{
    law_read_sections_are_clean(content);
    lemma_others_are_clean(sections_of(content), backend);
    law_written_sections_read_back(without_backend(sections_of(content), backend));
}

/// Setting a backend up leaves every other as it was, and the file has the
/// backend exactly once, behind them.
pub proof fn law_setting_up_replaces_the_backend(content: Seq<char>, section: SectionView)
    requires
        is_clean(section),
    ensures
        ({
            let others = without_backend(sections_of(content), section.name);
            &&& sections_of(written(others.push(section))) == others.push(section)
            &&& forall|i: int| 0 <= i < others.len() ==> (#[trigger] others[i]).name != section.name
        }),
{
    law_read_sections_are_clean(content);
    lemma_others_are_clean(sections_of(content), section.name);
    let now = without_backend(sections_of(content), section.name).push(section);
    assert forall|i: int| 0 <= i < now.len() implies is_clean(#[trigger] now[i]) by {
        if i < now.len() - 1 {
            assert(now[i] == without_backend(sections_of(content), section.name)[i]);
        }
    }
    law_written_sections_read_back(now);
}

/// A backend that is set up has no credential in plain text.
pub proof fn law_setting_up_leaves_no_plain_text(
    backend: Seq<char>,
    module: Seq<char>,
    credentials: Seq<(Seq<char>, Seq<char>)>,
    python: Seq<char>,
    helper: Seq<char>,
)
    ensures
        !has_plain_text(
            backend_section(backend, module, credentials, python, helper).fields,
        ),
{
    reveal_strlit("_module");
    let fields = backend_section(backend, module, credentials, python, helper).fields;
    assert forall|i: int| 0 <= i < fields.len() implies !is_plain_text(#[trigger] fields[i]) by {
        if i == 0 {
            assert(fields[0].0 == "_module"@);
        } else {
            lemma_command_is_command(
                python,
                helper,
                keychain_key(backend, credentials[i - 1].0),
            );
        }
    }
}

/// The backends of the sections that are kept are those that are kept of the
/// backends.
proof fn lemma_listed_without(sections: Seq<SectionView>, name: Seq<char>)
    ensures
        listed(without_backend(sections, name)) == without_listed(listed(sections), name),
    decreases sections.len(),
{
    reveal(Seq::filter);
    if sections.len() > 0 {
        lemma_listed_without(sections.drop_last(), name);
        assert(listed(sections).drop_last() =~= listed(sections.drop_last()));
        let last = sections.last();
        let fewer = without_backend(sections.drop_last(), name);
        assert(listed(sections).last() == (last.name, module_of(last)));
        assert(listed(fewer.push(last)) =~= listed(fewer).push((last.name, module_of(last))));
        assert(listed(without_backend(sections, name)) =~= without_listed(listed(sections), name));
    } else {
        assert(listed(without_backend(sections, name)) =~= without_listed(listed(sections), name));
    }
}

/// Whether a field is a command on one line.
pub open spec fn is_command_field(field: (Seq<char>, Seq<char>)) -> bool {
    is_one_line(field.0) && is_one_line(field.1) && is_command(field.1)
}

/// Whether sections are some others and, behind them, one that has a name and
/// says its module first.
pub open spec fn adds_backend(
    now: Seq<SectionView>,
    before: Seq<SectionView>,
    name: Seq<char>,
    module: Seq<char>,
) -> bool {
    &&& now.len() == before.len() + 1
    &&& now.drop_last() == before
    &&& now.last().name == name
    &&& now.last().fields.len() > 0
    &&& now.last().fields[0] == ("_module"@, module)
}

/// The line of a command starts no section, whatever its key.
proof fn lemma_command_line(field: (Seq<char>, Seq<char>))
    requires
        is_command_field(field),
    ensures
        is_one_line(field_line(field)),
        !is_header(trimmed(without_return(field_line(field)))),
{
    reveal_strlit(" = ");
    let line = field_line(field);
    lemma_one_line_of_two(field.0, " = "@);
    lemma_one_line_of_two(field.0 + " = "@, field.1);
    assert(line.last() == field.1.last());
    let from = lemma_trimmed_start(line);
    let behind = line.skip(from);
    let to = lemma_trimmed_end(behind);
    if from < line.len() {
        assert(behind.last() == line.last());
        assert(trimmed(line) =~= behind);
    }
}

/// A module and commands behind it are read as fields that say the module
/// first.
proof fn lemma_backend_fields_read(
    before: Seq<SectionView>,
    name: Seq<char>,
    fields: Seq<(Seq<char>, Seq<char>)>,
    module: Seq<char>,
)
    requires
        fields.len() > 0,
        fields[0] == ("_module"@, module),
        is_one_line(module),
        is_trimmed(module),
        forall|k: int| 1 <= k < fields.len() ==> is_command_field(#[trigger] fields[k]),
    ensures
        fields_text(fields).len() > 0,
        fields_text(fields).last() == '\n',
        adds_backend(
            after_lines(
                before.push(SectionView { name, fields: Seq::empty() }),
                lines_of(fields_text(fields)),
            ),
            before,
            name,
            module,
        ),
    decreases fields.len(),
{
    reveal_strlit("\n");
    let start = before.push(SectionView { name, fields: Seq::empty() });
    if fields.len() == 1 {
        reveal_strlit("_module");
        assert forall|j: int| 0 <= j < "_module"@.len() implies "_module"@[j] != '='
            && "_module"@[j] != '\n' by {}
        assert(is_clean_field(fields[0]));
        lemma_fields_read_back(before, name, fields);
        assert(before.push(SectionView { name, fields }).drop_last() =~= before);
    } else {
        let fewer = fields.drop_last();
        let last = fields[fields.len() - 1];
        assert forall|k: int| 1 <= k < fewer.len() implies is_command_field(
            #[trigger] fewer[k],
        ) by {
            assert(fewer[k] == fields[k]);
        }
        lemma_backend_fields_read(before, name, fewer, module);
        lemma_command_line(last);
        lemma_one_line(field_line(last));
        let line = field_line(last) + "\n"@;
        assert(fields_text(fields) =~= fields_text(fewer) + line);
        lemma_lines_of_two(fields_text(fewer), line);
        let shown = seq![without_return(field_line(last))];
        lemma_after_lines_of_two(start, lines_of(fields_text(fewer)), shown);
        let so_far = after_lines(start, lines_of(fields_text(fewer)));
        assert(shown.drop_last() =~= Seq::empty());
        assert(after_lines(so_far, shown.drop_last()) == so_far);
        let now = after_line(so_far, trimmed(without_return(field_line(last))));
        assert(now.drop_last() =~= so_far.drop_last());
    }
}

/// The backends of a file with one more section, that of a backend whose
/// credentials are commands, in place of any of the same name.
proof fn lemma_set_up_is_listed(content: Seq<char>, section: SectionView, module: Seq<char>)
    requires
        is_one_line(section.name),
        section.fields.len() > 0,
        section.fields[0] == ("_module"@, module),
        is_one_line(module),
        is_trimmed(module),
        forall|k: int|
            1 <= k < section.fields.len() ==> is_command_field(#[trigger] section.fields[k]),
    ensures
        listed(
            sections_of(
                written(without_backend(sections_of(content), section.name).push(section)),
            ),
        ) == without_listed(listed(sections_of(content)), section.name).push(
            (section.name, module),
        ),
{
    let others = without_backend(sections_of(content), section.name);
    law_deleting_leaves_the_others(content, section.name);
    lemma_listed_without(sections_of(content), section.name);
    assert(others.push(section).drop_last() =~= others);
    lemma_written_ends_a_line(others);
    lemma_lines_of_two(written(others), section_text(section));
    lemma_after_lines_of_two(
        Seq::empty(),
        lines_of(written(others)),
        lines_of(section_text(section)),
    );
    lemma_backend_fields_read(others, section.name, section.fields, module);
    lemma_section_lines(others, section);
    let now = sections_of(written(others.push(section)));
    assert(now =~= others.push(now.last()));
    assert(module_of(now.last()) == module);
    assert(listed(now) =~= listed(others).push((section.name, module)));
}

/// Deleting a backend that was set up leaves the backends that were configured
/// before, without any of its name.
pub proof fn law_deleting_undoes_setting_up(
    before: Seq<char>,
    set_up: Seq<char>,
    deleted: Seq<char>,
    name: Seq<char>,
    module: Seq<char>,
)
    requires
        listed(sections_of(set_up)) == without_listed(listed(sections_of(before)), name).push(
            (name, module),
        ),
        listed(sections_of(deleted)) == without_listed(listed(sections_of(set_up)), name),
    ensures
        listed(sections_of(deleted)) == without_listed(listed(sections_of(before)), name),
        forall|i: int|
            0 <= i < listed(sections_of(deleted)).len() ==> (#[trigger] listed(
                sections_of(deleted),
            )[i]).0 != name,
{
    reveal(Seq::filter);
    let others = without_listed(listed(sections_of(before)), name);
    lemma_others_are_kept(listed(sections_of(before)), name);
    assert(others.push((name, module)).drop_last() =~= others);
}

proof fn lemma_others_are_kept(backends: Seq<(Seq<char>, Seq<char>)>, name: Seq<char>)
    ensures
        without_listed(without_listed(backends, name), name) == without_listed(backends, name),
        forall|i: int|
            0 <= i < without_listed(backends, name).len() ==> (#[trigger] without_listed(
                backends,
                name,
            )[i]).0 != name,
    decreases backends.len(),
{
    reveal(Seq::filter);
    if backends.len() > 0 {
        let fewer = without_listed(backends.drop_last(), name);
        lemma_others_are_kept(backends.drop_last(), name);
        assert(fewer.push(backends.last()).drop_last() =~= fewer);
    }
}

proof fn lemma_migrated_fields(
    backend: Seq<char>,
    fields: Seq<(Seq<char>, Seq<char>)>,
    python: Seq<char>,
    helper: Seq<char>,
)
    ensures
        !has_plain_text(migrated_fields(backend, fields, python, helper)),
    decreases fields.len(),
{
    if fields.len() > 0 {
        lemma_migrated_fields(backend, fields.drop_last(), python, helper);
        lemma_command_is_command(python, helper, keychain_key(backend, fields.last().0));
        reveal_strlit("_");
        let before = migrated_fields(backend, fields.drop_last(), python, helper);
        let added = migrated_field(backend, fields.last(), python, helper);
        let now = migrated_fields(backend, fields, python, helper);
        assert forall|i: int| 0 <= i < now.len() implies !is_plain_text(#[trigger] now[i]) by {
            if i < before.len() {
                assert(now[i] == before[i]);
                assert(!is_plain_text(before[i]));
            } else {
                assert(now[i] == added[i - before.len()]);
                assert(("_"@ + fields.last().0)[0] == '_');
            }
        }
    }
}

/// The migration leaves no credential in plain text, so none is ever needed
/// twice.
pub proof fn law_migration_leaves_no_plain_text(
    sections: Seq<SectionView>,
    python: Seq<char>,
    helper: Seq<char>,
)
    ensures
        !needs_migration_of(migrated(sections, python, helper)),
{
    let now = migrated(sections, python, helper);
    assert forall|i: int| 0 <= i < now.len() implies !has_plain_text(
        (#[trigger] now[i]).fields,
    ) by {
        lemma_migrated_fields(sections[i].name, sections[i].fields, python, helper);
    }
}

/// The migration keeps every backend, its name and its module. Left out is a
/// credential in plain text that is itself called `module` and has no module
/// before it: its mark would be taken for the module.
pub proof fn law_migration_keeps_the_backends(
    sections: Seq<SectionView>,
    python: Seq<char>,
    helper: Seq<char>,
    i: int,
)
    requires
        0 <= i < sections.len(),
        forall|f: int|
            0 <= f < sections[i].fields.len() && is_plain_text(#[trigger] sections[i].fields[f])
                && sections[i].fields[f].0 == "module"@ ==> value_of(
                sections[i].fields.take(f),
                "_module"@,
            ) is Some,
    ensures
        migrated(sections, python, helper).len() == sections.len(),
        migrated(sections, python, helper)[i].name == sections[i].name,
        module_of(migrated(sections, python, helper)[i]) == module_of(sections[i]),
{
    lemma_migration_keeps_module(sections[i].name, sections[i].fields, python, helper);
}

proof fn lemma_value_behind(
    a: Seq<(Seq<char>, Seq<char>)>,
    b: Seq<(Seq<char>, Seq<char>)>,
    key: Seq<char>,
)
    ensures
        value_of(a + b, key) == match value_of(a, key) {
            Some(value) => Some(value),
            None => value_of(b, key),
        },
    decreases a.len(),
{
    if a.len() == 0 {
        assert(a + b =~= b);
    } else {
        assert((a + b).drop_first() =~= a.drop_first() + b);
        lemma_value_behind(a.drop_first(), b, key);
    }
}

proof fn lemma_value_of_one(field: (Seq<char>, Seq<char>), key: Seq<char>)
    ensures
        value_of(seq![field], key) == if field.0 == key {
            Some(field.1)
        } else {
            None
        },
{
    assert(seq![field].drop_first() =~= Seq::empty());
    assert(value_of(seq![field].drop_first(), key) is None);
}

proof fn lemma_migration_keeps_module(
    backend: Seq<char>,
    fields: Seq<(Seq<char>, Seq<char>)>,
    python: Seq<char>,
    helper: Seq<char>,
)
    requires
        forall|f: int|
            0 <= f < fields.len() && is_plain_text(#[trigger] fields[f]) && fields[f].0
                == "module"@ ==> value_of(fields.take(f), "_module"@) is Some,
    ensures
        value_of(migrated_fields(backend, fields, python, helper), "_module"@) == value_of(
            fields,
            "_module"@,
        ),
    decreases fields.len(),
{
    if fields.len() > 0 {
        let fewer = fields.drop_last();
        let last = fields.last();
        assert forall|f: int|
            0 <= f < fewer.len() && is_plain_text(#[trigger] fewer[f]) && fewer[f].0
                == "module"@ implies value_of(fewer.take(f), "_module"@) is Some by {
            assert(fewer[f] == fields[f]);
            assert(fewer.take(f) =~= fields.take(f));
        }
        lemma_migration_keeps_module(backend, fewer, python, helper);
        let added = migrated_field(backend, last, python, helper);
        assert(fields =~= fewer + seq![last]);
        lemma_value_behind(fewer, seq![last], "_module"@);
        lemma_value_behind(migrated_fields(backend, fewer, python, helper), added, "_module"@);
        lemma_value_of_one(last, "_module"@);
        reveal_strlit("_module");
        reveal_strlit("module");
        reveal_strlit("_");
        assert(is_own_key("_module"@));
        if is_plain_text(last) {
            let mark = ("_"@ + last.0, "c"@);
            let command = (last.0, command_of(python, helper, keychain_key(backend, last.0)));
            assert(fields[fields.len() - 1] == last);
            assert(mark.0 != "_module"@ || value_of(fewer, "_module"@) is Some) by {
                if mark.0 == "_module"@ {
                    assert(last.0 =~= mark.0.skip(1));
                    assert("_module"@.skip(1) =~= "module"@);
                    assert(fields.take(fields.len() - 1) =~= fewer);
                }
            }
            assert(added =~= seq![command] + seq![mark]);
            lemma_value_behind(seq![command], seq![mark], "_module"@);
            lemma_value_of_one(command, "_module"@);
            lemma_value_of_one(mark, "_module"@);
        } else if is_own_key(last.0) && last.0 != "_module"@ {
            assert(value_of(added, "_module"@) is None);
        }
    }
}

proof fn lemma_command_is_clean(python: Seq<char>, helper: Seq<char>, key: Seq<char>)
    requires
        !python.contains('\n'),
        !helper.contains('\n'),
        !key.contains('\n'),
    ensures
        is_trimmed(command_of(python, helper, key)),
        !command_of(python, helper, key).contains('\n'),
        command_of(python, helper, key).last() == '`',
{
    reveal_strlit("`");
    reveal_strlit(" ");
    let command = command_of(python, helper, key);
    let p = python.len() as int;
    let h = helper.len() as int;
    assert forall|j: int| 0 <= j < command.len() implies command[j] != '\n' by {
        if 1 <= j < 1 + p {
            assert(command[j] == python[j - 1]);
            assert(python.contains(python[j - 1]));
        } else if 2 + p <= j < 2 + p + h {
            assert(command[j] == helper[j - 2 - p]);
            assert(helper.contains(helper[j - 2 - p]));
        } else if 3 + p + h <= j < command.len() - 1 {
            assert(command[j] == key[j - 3 - p - h]);
            assert(key.contains(key[j - 3 - p - h]));
        }
    }
}

proof fn lemma_migrated_fields_are_clean(
    backend: Seq<char>,
    fields: Seq<(Seq<char>, Seq<char>)>,
    python: Seq<char>,
    helper: Seq<char>,
)
    requires
        is_one_line(python),
        is_one_line(helper),
        forall|i: int| 0 <= i < fields.len() ==> is_clean_field(#[trigger] fields[i]),
        forall|i: int|
            0 <= i < fields.len() && is_plain_text(#[trigger] fields[i]) ==> is_one_line(
                keychain_key(backend, fields[i].0),
            ),
    ensures
        forall|i: int|
            0 <= i < migrated_fields(backend, fields, python, helper).len() ==> is_clean_field(
                #[trigger] migrated_fields(backend, fields, python, helper)[i],
            ),
    decreases fields.len(),
{
    if fields.len() > 0 {
        let fewer = fields.drop_last();
        let last = fields.last();
        assert forall|i: int| 0 <= i < fewer.len() implies is_clean_field(#[trigger] fewer[i])
            && (is_plain_text(fewer[i]) ==> is_one_line(keychain_key(backend, fewer[i].0))) by {
            assert(fewer[i] == fields[i]);
        }
        lemma_migrated_fields_are_clean(backend, fewer, python, helper);
        assert(last == fields[fields.len() - 1]);
        let key = keychain_key(backend, last.0);
        if is_plain_text(last) {
            lemma_command_is_clean(python, helper, key);
        }
        reveal_strlit("_");
        reveal_strlit("c");
        let mark = "_"@ + last.0;
        assert(mark[0] == '_');
        assert(mark.last() == last.0.last());
        assert forall|j: int| 0 <= j < mark.len() implies mark[j] != '=' && mark[j] != '\n' by {
            if j > 0 {
                assert(mark[j] == last.0[j - 1]);
                assert(last.0.contains(last.0[j - 1]));
            }
        }
        let before = migrated_fields(backend, fewer, python, helper);
        let added = migrated_field(backend, last, python, helper);
        let now = migrated_fields(backend, fields, python, helper);
        assert forall|i: int| 0 <= i < now.len() implies is_clean_field(#[trigger] now[i]) by {
            if i < before.len() {
                assert(now[i] == before[i]);
            } else {
                assert(now[i] == added[i - before.len()]);
            }
        }
    }
}

/// Once the migrated file is written, no migration is needed.
proof fn lemma_migrated_file_needs_no_migration(
    content: Seq<char>,
    python: Seq<char>,
    helper: Seq<char>,
)
    requires
        is_one_line(python),
        is_one_line(helper),
        forall|i: int, f: int|
            0 <= i < sections_of(content).len() && 0 <= f < sections_of(content)[i].fields.len()
                && is_plain_text(#[trigger] sections_of(content)[i].fields[f]) ==> is_one_line(
                keychain_key(sections_of(content)[i].name, sections_of(content)[i].fields[f].0),
            ),
    ensures
        !needs_migration_of(
            sections_of(written(migrated(sections_of(content), python, helper))),
        ),
{
    let sections = sections_of(content);
    let now = migrated(sections, python, helper);
    law_read_sections_are_clean(content);
    assert forall|i: int| 0 <= i < now.len() implies is_clean(#[trigger] now[i]) by {
        assert(is_clean(sections[i]));
        assert forall|f: int|
            0 <= f < sections[i].fields.len() && is_plain_text(
                #[trigger] sections[i].fields[f],
            ) implies is_one_line(keychain_key(sections[i].name, sections[i].fields[f].0)) by {}
        lemma_migrated_fields_are_clean(sections[i].name, sections[i].fields, python, helper);
    }
    law_written_sections_read_back(now);
    law_migration_leaves_no_plain_text(sections, python, helper);
}

} // verus!
