//! What the backends file says and what becomes of it: which lines count, which
//! fields are credentials, and where every secret goes.

use crate::backends::{
    after_line, after_lines, all_migrated_secrets, backend_section, backend_services, command_of,
    credential_fields, credential_secrets, field_of, field_services, has_plain_text, is_plain_text,
    keychain_key, keychain_service, listed, migrated, migrated_field, migrated_fields,
    migrated_secrets, needs_migration_of, value_of, without_backend, Section, SectionView,
};
use crate::collect::{are_positions, lemma_grown_positions};
use crate::text::{lemma_first_at, lemma_is_first_at, lowercase, trimmed};
use vstd::prelude::*;

verus! {

/// A section is seen with everything that it says.
pub proof fn law_section_is_seen_whole(section: Section)
    ensures
        section@.name == section.name@,
        section@.fields.len() == section.fields@.len(),
        forall|f: int|
            0 <= f < section.fields@.len() ==> #[trigger] section@.fields[f] == (
                section.fields@[f].0@,
                section.fields@[f].1@,
            ),
{
}

/// A line has the field whose key stands before its first equals sign and whose
/// value stands behind it, both without the white space around them, where there
/// is a key.
pub proof fn law_field_stands_around_the_first_sign(line: Seq<char>, k: int)
    requires
        0 <= k < line.len(),
        line[k] == '=',
        forall|j: int| 0 <= j < k ==> line[j] != '=',
    ensures
        trimmed(line.take(k)).len() > 0 ==> field_of(line) == Some(
            (trimmed(line.take(k)), trimmed(line.skip(k + 1))),
        ),
        trimmed(line.take(k)).len() == 0 ==> field_of(line) is None,
{
    lemma_is_first_at(line, '=', k);
}

/// A line without an equals sign has no field.
pub proof fn law_line_without_a_sign_has_no_field(line: Seq<char>)
    requires
        !line.contains('='),
    ensures
        field_of(line) is None,
{
    lemma_first_at(line, '=');
}

/// Every line is read in its turn: one in square brackets starts a section with
/// the name between them, one with a field adds it behind the others of the last
/// section, where there is one, and any other says nothing.
pub proof fn law_every_line_is_read(
    sections: Seq<SectionView>,
    lines: Seq<Seq<char>>,
    line: Seq<char>,
)
    ensures
        ({
            let before = after_lines(sections, lines);
            let now = after_lines(sections, lines.push(line));
            let text = trimmed(line);
            let is_bracketed = text.len() > 0 && text[0] == '[' && text[text.len() - 1] == ']';
            &&& is_bracketed ==> now.len() == before.len() + 1 && now.drop_last() == before
                && now.last().name == text.subrange(1, text.len() - 1) && now.last().fields.len()
                == 0
            &&& !is_bracketed && before.len() > 0 && field_of(text) is Some ==> now.len()
                == before.len() && now.drop_last() == before.drop_last() && now.last().name
                == before.last().name && now.last().fields == before.last().fields.push(
                field_of(text)->0,
            )
            &&& !is_bracketed && (before.len() == 0 || field_of(text) is None) ==> now == before
        }),
{
    assert(lines.push(line).drop_last() =~= lines);
    let before = after_lines(sections, lines);
    let text = trimmed(line);
    let now = after_line(before, text);
    assert(after_lines(sections, lines.push(line)) == now);
    if text.len() > 0 && text[0] == '[' && text[text.len() - 1] == ']' {
        assert(now.drop_last() =~= before);
    } else if before.len() > 0 && field_of(text) is Some {
        assert(now.drop_last() =~= before.drop_last());
    }
}

/// A value is that of the first field with the key, and there is none only where
/// no field has it.
pub proof fn law_first_value_is_taken(fields: Seq<(Seq<char>, Seq<char>)>, key: Seq<char>)
    ensures
        match value_of(fields, key) {
            Some(value) => exists|i: int|
                0 <= i < fields.len() && (#[trigger] fields[i]).0 == key && fields[i].1 == value
                    && (
                forall|k: int| 0 <= k < i ==> (#[trigger] fields[k]).0 != key),
            None => forall|k: int| 0 <= k < fields.len() ==> (#[trigger] fields[k]).0 != key,
        },
    decreases fields.len(),
{
    if fields.len() > 0 && fields[0].0 != key {
        let rest = fields.drop_first();
        law_first_value_is_taken(rest, key);
        match value_of(rest, key) {
            Some(value) => {
                let i = choose|i: int|
                    0 <= i < rest.len() && (#[trigger] rest[i]).0 == key && rest[i].1 == value && (
                    forall|k: int| 0 <= k < i ==> (#[trigger] rest[k]).0 != key);
                assert(fields[i + 1].0 == key);
                assert forall|k: int| 0 <= k < i + 1 implies (#[trigger] fields[k]).0 != key by {
                    if k > 0 {
                        assert(rest[k - 1] == fields[k]);
                    }
                }
            },
            None => {
                assert forall|k: int| 0 <= k < fields.len() implies (#[trigger] fields[k]).0
                    != key by {
                    if k > 0 {
                        assert(rest[k - 1] == fields[k]);
                    }
                }
            },
        }
    }
}

/// Every section is a backend, in its order, of the module that it says, or of
/// the module with its own name where it says none.
pub proof fn law_every_section_is_a_backend(sections: Seq<SectionView>)
    ensures
        listed(sections).len() == sections.len(),
        forall|i: int|
            0 <= i < sections.len() ==> (#[trigger] listed(sections)[i]).0 == sections[i].name,
        forall|i: int|
            0 <= i < sections.len() ==> (#[trigger] listed(sections)[i]).1 == match value_of(
                sections[i].fields,
                "_module"@,
            ) {
                Some(module) => module,
                None => sections[i].name,
            },
{
}

/// A migration is needed exactly where a field of a section is neither one of
/// Woob's own nor a command.
pub proof fn law_plain_text_needs_migration(sections: Seq<SectionView>)
    ensures
        forall|i: int, f: int|
            0 <= i < sections.len() && 0 <= f < sections[i].fields.len() && !((
            #[trigger] sections[i].fields[f]).0.len() > 0 && sections[i].fields[f].0[0] == '_')
                && !(sections[i].fields[f].1.len() > 0 && sections[i].fields[f].1[0] == '`'
                && sections[i].fields[f].1.last() == '`') ==> needs_migration_of(sections),
        needs_migration_of(sections) ==> exists|i: int, f: int|
            0 <= i < sections.len() && 0 <= f < sections[i].fields.len() && !((
            #[trigger] sections[i].fields[f]).0.len() > 0 && sections[i].fields[f].0[0] == '_')
                && !(sections[i].fields[f].1.len() > 0 && sections[i].fields[f].1[0] == '`'
                && sections[i].fields[f].1.last() == '`'),
{
    assert forall|i: int, f: int|
        0 <= i < sections.len() && 0 <= f < sections[i].fields.len() && is_plain_text(
            #[trigger] sections[i].fields[f],
        ) implies needs_migration_of(sections) by {
        assert(has_plain_text(sections[i].fields));
    }
    if needs_migration_of(sections) {
        let i = choose|i: int| 0 <= i < sections.len() && has_plain_text(
            (#[trigger] sections[i]).fields,
        );
        let f = choose|f: int| 0 <= f < sections[i].fields.len() && is_plain_text(
            #[trigger] sections[i].fields[f],
        );
        assert(is_plain_text(sections[i].fields[f]));
    }
}

/// A credential is kept under a key of its own for each backend and field, and
/// Woob has it by a command with that key.
pub proof fn law_credential_has_its_key(
    backend: Seq<char>,
    field: Seq<char>,
    python: Seq<char>,
    helper: Seq<char>,
)
    ensures
        keychain_key(backend, field) == "woob_"@ + lowercase(backend) + "_"@ + lowercase(field),
        keychain_service(keychain_key(backend, field)) == "wealthfolio_"@ + lowercase(
            "woob_"@ + lowercase(backend) + "_"@ + lowercase(field),
        ),
        command_of(python, helper, keychain_key(backend, field)) == "`"@ + python + " "@ + helper
            + " "@ + ("woob_"@ + lowercase(backend) + "_"@ + lowercase(field)) + "`"@,
{
}

/// The sections that are kept are all those with another name, in their order.
pub proof fn law_every_other_section_is_kept(sections: Seq<SectionView>,
    name: Seq<char>) -> (places: Seq<int>)
    ensures
        are_positions(places, sections.len() as int),
        places.len() == without_backend(sections, name).len(),
        forall|k: int| 0 <= k < places.len() ==> without_backend(sections, name)[k]
            == sections[#[trigger] places[k]],
        forall|i: int| 0 <= i < sections.len() ==> (#[trigger] places.contains(i)
            <==> sections[i].name != name),
    decreases sections.len(),
{
    reveal(Seq::filter);
    if sections.len() == 0 {
        Seq::empty()
    } else {
        let fewer = sections.drop_last();
        let last = sections.len() - 1;
        let before = law_every_other_section_is_kept(fewer, name);
        let is_kept = sections[last].name != name;
        let places = if is_kept {
            before.push(last)
        } else {
            before
        };
        lemma_grown_positions(before, last, is_kept, places);
        assert(without_backend(sections, name) =~= if is_kept {
            without_backend(fewer, name).push(sections[last])
        } else {
            without_backend(fewer, name)
        });
        assert forall|k: int| 0 <= k < places.len() implies #[trigger] places[k] == if k
            < before.len() {
            before[k]
        } else {
            last
        } by {}
        assert forall|k: int| 0 <= k < before.len() implies sections[#[trigger] before[k]]
            == fewer[before[k]] by {}
        assert forall|i: int| 0 <= i < last implies (#[trigger] places.contains(i)
            <==> before.contains(i)) && sections[i] == fewer[i] by {}
        places
    }
}

/// Every credential of a backend that is set up has a secret under its key and a
/// field with the command for that key, in the order of the credentials, behind
/// the module.
pub proof fn law_every_credential_is_set_up(
    backend: Seq<char>,
    module: Seq<char>,
    credentials: Seq<(Seq<char>, Seq<char>)>,
    python: Seq<char>,
    helper: Seq<char>,
)
    ensures
        credential_secrets(backend, credentials).len() == credentials.len(),
        forall|i: int|
            0 <= i < credentials.len() ==> #[trigger] credential_secrets(backend, credentials)[i]
                == (
                "woob_"@ + lowercase(backend) + "_"@ + lowercase(credentials[i].0),
                credentials[i].1,
            ),
        ({
            let section = backend_section(backend, module, credentials, python, helper);
            &&& section.name == backend
            &&& section.fields.len() == credentials.len() + 1
            &&& section.fields[0] == ("_module"@, module)
            &&& forall|i: int|
                0 <= i < credentials.len() ==> section.fields[i + 1] == ((
                #[trigger] credentials[i]).0, command_of(
                    python,
                    helper,
                    "woob_"@ + lowercase(backend) + "_"@ + lowercase(credentials[i].0),
                ))
        }),
{
    assert(credential_fields(backend, credentials, python, helper).len() == credentials.len());
}

/// The services of a section are those of every field that is not one of Woob's
/// own, in the order of the fields.
pub proof fn law_every_credential_of_a_section_has_its_service(backend: Seq<char>,
    fields: Seq<(Seq<char>, Seq<char>)>) -> (places: Seq<int>)
    ensures
        are_positions(places, fields.len() as int),
        places.len() == field_services(backend, fields).len(),
        forall|k: int| 0 <= k < places.len() ==> field_services(backend, fields)[k]
            == keychain_service(keychain_key(backend, fields[#[trigger] places[k]].0)),
        forall|i: int| 0 <= i < fields.len() ==> (#[trigger] places.contains(i)
            <==> !(fields[i].0.len() > 0 && fields[i].0[0] == '_')),
    decreases fields.len(),
{
    reveal(Seq::filter);
    if fields.len() == 0 {
        Seq::empty()
    } else {
        let fewer = fields.drop_last();
        let last = fields.len() - 1;
        let before = law_every_credential_of_a_section_has_its_service(backend, fewer);
        let is_kept = !(fields[last].0.len() > 0 && fields[last].0[0] == '_');
        let places = if is_kept {
            before.push(last)
        } else {
            before
        };
        lemma_grown_positions(before, last, is_kept, places);
        assert(field_services(backend, fields) =~= if is_kept {
            field_services(backend, fewer).push(keychain_service(keychain_key(backend,
                fields[last].0)))
        } else {
            field_services(backend, fewer)
        });
        assert forall|k: int| 0 <= k < places.len() implies #[trigger] places[k] == if k
            < before.len() {
            before[k]
        } else {
            last
        } by {}
        assert forall|k: int| 0 <= k < before.len() implies fields[#[trigger] before[k]]
            == fewer[before[k]] by {}
        assert forall|i: int| 0 <= i < last implies (#[trigger] places.contains(i)
            <==> before.contains(i)) && fields[i] == fewer[i] by {}
        places
    }
}

/// Deleting a backend takes the services of every section with its name, one
/// section after the other, and of no other section.
pub proof fn law_every_section_of_a_backend_is_cleared(
    sections: Seq<SectionView>,
    section: SectionView,
    backend: Seq<char>,
)
    ensures
        backend_services(Seq::empty(), backend) == Seq::<Seq<char>>::empty(),
        section.name == backend ==> backend_services(sections.push(section), backend)
            == backend_services(sections, backend) + field_services(backend, section.fields),
        section.name != backend ==> backend_services(sections.push(section), backend)
            == backend_services(sections, backend),
{
    assert(sections.push(section).drop_last() =~= sections);
}

/// The migration keeps the module and every command as they are, drops what else
/// is Woob's own, and puts in place of a credential in plain text the command
/// for its key and a mark.
pub proof fn law_field_is_migrated(
    backend: Seq<char>,
    field: (Seq<char>, Seq<char>),
    python: Seq<char>,
    helper: Seq<char>,
)
    ensures
        ({
            let now = migrated_field(backend, field, python, helper);
            let is_own = field.0.len() > 0 && field.0[0] == '_';
            let is_quoted = field.1.len() > 0 && field.1[0] == '`' && field.1.last() == '`';
            &&& field.0 == "_module"@ ==> now == seq![field]
            &&& is_own && field.0 != "_module"@ ==> now.len() == 0
            &&& !is_own && is_quoted ==> now == seq![field]
            &&& !is_own && !is_quoted ==> now == seq![
                (
                    field.0,
                    command_of(
                        python,
                        helper,
                        "woob_"@ + lowercase(backend) + "_"@ + lowercase(field.0),
                    ),
                ),
                ("_"@ + field.0, "c"@),
            ]
        }),
{
    reveal_strlit("_module");
}

/// Every field is migrated, one behind the other.
pub proof fn law_every_field_is_migrated(
    backend: Seq<char>,
    fields: Seq<(Seq<char>, Seq<char>)>,
    field: (Seq<char>, Seq<char>),
    python: Seq<char>,
    helper: Seq<char>,
)
    ensures
        migrated_fields(backend, Seq::empty(), python, helper) == Seq::<
            (Seq<char>, Seq<char>),
        >::empty(),
        migrated_fields(backend, fields.push(field), python, helper) == migrated_fields(
            backend,
            fields,
            python,
            helper,
        ) + migrated_field(backend, field, python, helper),
{
    assert(fields.push(field).drop_last() =~= fields);
}

/// Every section is migrated under its own name, in its order.
pub proof fn law_every_section_is_migrated(
    sections: Seq<SectionView>,
    python: Seq<char>,
    helper: Seq<char>,
)
    ensures
        migrated(sections, python, helper).len() == sections.len(),
        forall|i: int|
            0 <= i < sections.len() ==> (#[trigger] migrated(sections, python, helper)[i]).name
                == sections[i].name,
        forall|i: int|
            0 <= i < sections.len() ==> (#[trigger] migrated(sections, python, helper)[i]).fields
                == migrated_fields(sections[i].name, sections[i].fields, python, helper),
{
}

/// The secrets of a section are the values of every credential in plain text,
/// each under its key, in the order of the fields.
pub proof fn law_every_secret_of_a_section_is_kept(backend: Seq<char>, fields: Seq<(Seq<char>,
    Seq<char>)>) -> (places: Seq<int>)
    ensures
        are_positions(places, fields.len() as int),
        places.len() == migrated_secrets(backend, fields).len(),
        forall|k: int| 0 <= k < places.len() ==> migrated_secrets(backend, fields)[k]
            == (keychain_key(backend, fields[#[trigger] places[k]].0), fields[places[k]].1),
        forall|i: int| 0 <= i < fields.len() ==> (#[trigger] places.contains(i)
            <==> !(fields[i].0.len() > 0 && fields[i].0[0] == '_') && !(fields[i].1.len() > 0
            && fields[i].1[0] == '`' && fields[i].1.last() == '`')),
    decreases fields.len(),
{
    reveal(Seq::filter);
    if fields.len() == 0 {
        Seq::empty()
    } else {
        let fewer = fields.drop_last();
        let last = fields.len() - 1;
        let before = law_every_secret_of_a_section_is_kept(backend, fewer);
        let is_kept = !(fields[last].0.len() > 0 && fields[last].0[0] == '_')
            && !(fields[last].1.len() > 0 && fields[last].1[0] == '`' && fields[last].1.last()
            == '`');
        let places = if is_kept {
            before.push(last)
        } else {
            before
        };
        lemma_grown_positions(before, last, is_kept, places);
        assert(migrated_secrets(backend, fields) =~= if is_kept {
            migrated_secrets(backend, fewer).push((keychain_key(backend, fields[last].0),
                fields[last].1))
        } else {
            migrated_secrets(backend, fewer)
        });
        assert forall|k: int| 0 <= k < places.len() implies #[trigger] places[k] == if k
            < before.len() {
            before[k]
        } else {
            last
        } by {}
        assert forall|k: int| 0 <= k < before.len() implies fields[#[trigger] before[k]]
            == fewer[before[k]] by {}
        assert forall|i: int| 0 <= i < last implies (#[trigger] places.contains(i)
            <==> before.contains(i)) && fields[i] == fewer[i] by {}
        places
    }
}

/// The secrets of the migration are those of every section, one after the other.
pub proof fn law_every_secret_is_kept(sections: Seq<SectionView>, section: SectionView)
    ensures
        all_migrated_secrets(Seq::empty()) == Seq::<(Seq<char>, Seq<char>)>::empty(),
        all_migrated_secrets(sections.push(section)) == all_migrated_secrets(sections)
            + migrated_secrets(section.name, section.fields),
{
    assert(sections.push(section).drop_last() =~= sections);
}

} // verus!
