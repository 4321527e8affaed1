//! Running Woob: where it is, what it is asked, and what it answers.

use crate::json::{json_text, write_json_text};
use crate::text::{
    chain, characters, digits_of, ends_with, find_char, first_at, lines, lines_of, optional_text,
    print_number, spell, starts_with, text_ends_with, text_starts_with, texts, trim, trimmed, words,
    words_of,
};
use vstd::prelude::*;

verus! {

// ── Where it is ──────────────────────────────────────────────────────────────

/// Where Woob is when a version of Python installed it for one user.
pub open spec fn user_woob_path(home: Seq<char>, version: Seq<char>) -> Seq<char> {
    home + "/Library/Python/"@ + version + "/bin/woob"@
}

/// Where Woob may be, the likeliest place first.
pub open spec fn woob_paths(home: Seq<char>) -> Seq<Seq<char>> {
    seq![
        user_woob_path(home, "3.14"@),
        user_woob_path(home, "3.13"@),
        user_woob_path(home, "3.12"@),
        user_woob_path(home, "3.11"@),
        user_woob_path(home, "3.10"@),
        "/usr/local/bin/woob"@,
        "/usr/bin/woob"@,
        "/opt/homebrew/bin/woob"@,
    ]
}

fn user_path(home: &str, version: &str) -> (path: String)
    ensures
        path@ == user_woob_path(home@, version@),
{
    let start = chain(home, "/Library/Python/");
    chain(chain(start.as_str(), version).as_str(), "/bin/woob")
}

/// Where Woob may be, the likeliest place first.
pub fn woob_candidates(home: &str) -> (paths: Vec<String>)
    ensures
        texts(paths@) == woob_paths(home@),
{
    let mut paths: Vec<String> = Vec::new();
    paths.push(user_path(home, "3.14"));
    paths.push(user_path(home, "3.13"));
    paths.push(user_path(home, "3.12"));
    paths.push(user_path(home, "3.11"));
    paths.push(user_path(home, "3.10"));
    paths.push("/usr/local/bin/woob".to_owned());
    paths.push("/usr/bin/woob".to_owned());
    paths.push("/opt/homebrew/bin/woob".to_owned());
    assert(texts(paths@) =~= woob_paths(home@));
    paths
}

/// The first of some paths that is present.
pub open spec fn first_present(paths: Seq<Seq<char>>, present: Seq<bool>) -> Option<Seq<char>>
    decreases paths.len(),
{
    if paths.len() == 0 {
        None
    } else if present[0] {
        Some(paths[0])
    } else {
        first_present(paths.drop_first(), present.drop_first())
    }
}

/// The path that is taken is the first that is present, and there is none only
/// where none is.
pub proof fn law_first_path_that_is_present_is_taken(
    paths: Seq<Seq<char>>,
    present: Seq<bool>,
)
    requires
        paths.len() == present.len(),
    ensures
        match first_present(paths, present) {
            Some(path) => exists|i: int|
                0 <= i < present.len() && (#[trigger] present[i]) && paths[i] == path && (forall|
                    k: int,
                |
                    0 <= k < i ==> !(#[trigger] present[k])),
            None => forall|k: int| 0 <= k < present.len() ==> !(#[trigger] present[k]),
        },
    decreases paths.len(),
{
    if paths.len() > 0 && !present[0] {
        let rest = present.drop_first();
        law_first_path_that_is_present_is_taken(paths.drop_first(), rest);
        match first_present(paths.drop_first(), rest) {
            Some(path) => {
                let i = choose|i: int|
                    0 <= i < rest.len() && (#[trigger] rest[i]) && paths.drop_first()[i] == path
                        && (
                    forall|k: int| 0 <= k < i ==> !(#[trigger] rest[k]));
                assert(present[i + 1]);
                assert forall|k: int| 0 <= k < i + 1 implies !(#[trigger] present[k]) by {
                    if k > 0 {
                        assert(!rest[k - 1]);
                    }
                }
            },
            None => {
                assert forall|k: int| 0 <= k < present.len() implies !(#[trigger] present[k]) by {
                    if k > 0 {
                        assert(!rest[k - 1]);
                    }
                }
            },
        }
    }
}

/// Woob is looked for where each version of Python installs it for one user, the
/// newest first, and then in the usual places.
pub proof fn law_woob_is_looked_for_in_its_places(home: Seq<char>)
    ensures
        woob_paths(home).len() == 8,
        woob_paths(home)[0] == home + "/Library/Python/"@ + "3.14"@ + "/bin/woob"@,
        woob_paths(home)[1] == home + "/Library/Python/"@ + "3.13"@ + "/bin/woob"@,
        woob_paths(home)[2] == home + "/Library/Python/"@ + "3.12"@ + "/bin/woob"@,
        woob_paths(home)[3] == home + "/Library/Python/"@ + "3.11"@ + "/bin/woob"@,
        woob_paths(home)[4] == home + "/Library/Python/"@ + "3.10"@ + "/bin/woob"@,
        woob_paths(home)[5] == "/usr/local/bin/woob"@,
        woob_paths(home)[6] == "/usr/bin/woob"@,
        woob_paths(home)[7] == "/opt/homebrew/bin/woob"@,
{
}

/// Python is looked for where a script names it, as it stands and then in each
/// of the usual directories, and only then in the usual places.
pub proof fn law_python_is_looked_for_in_its_places(interpreter: Option<Seq<char>>)
    ensures
        interpreter is None ==> python_paths(interpreter).len() == 3,
        interpreter is Some ==> {
            let name = interpreter->0;
            let paths = python_paths(interpreter);
            &&& paths.len() == 7
            &&& paths[0] == name
            &&& paths[1] == "/usr/local/bin"@ + "/"@ + name
            &&& paths[2] == "/opt/homebrew/bin"@ + "/"@ + name
            &&& paths[3] == "/usr/bin"@ + "/"@ + name
        },
        python_paths(interpreter)[python_paths(interpreter).len() - 3] == "/usr/local/bin/python3"@,
        python_paths(interpreter)[python_paths(interpreter).len() - 2]
            == "/opt/homebrew/bin/python3"@,
        python_paths(interpreter)[python_paths(interpreter).len() - 1] == "/usr/bin/python3"@,
{
}

/// Woob is asked for the accounts of the backend that is named, or of all, as
/// JSON.
pub proof fn law_accounts_are_asked_of_the_backend(backend: Option<Seq<char>>)
    ensures
        list_arguments(backend)[0] == "bank"@,
        backend is Some ==> list_arguments(backend).len() == 6 && list_arguments(backend)[1]
            == "-b"@ && list_arguments(backend)[2] == backend->0,
        backend is None ==> list_arguments(backend).len() == 4,
        list_arguments(backend)[list_arguments(backend).len() - 3] == "-f"@,
        list_arguments(backend)[list_arguments(backend).len() - 2] == "json"@,
        list_arguments(backend)[list_arguments(backend).len() - 1] == "list"@,
{
}

/// Woob is asked for as many transactions of the account as there are in a
/// batch, from the day on that is given, where one is.
pub proof fn law_history_is_asked_of_the_account(
    batch: nat,
    since: Option<Seq<char>>,
    account_id: Seq<char>,
)
    ensures
        ({
            let asked = history_arguments(batch, since, account_id);
            &&& asked.len() == if since is Some {
                9int
            } else {
                7int
            }
            &&& asked[0] == "bank"@ && asked[1] == "-f"@ && asked[2] == "json"@
            &&& asked[3] == "-n"@ && asked[4] == digits_of(batch)
            &&& since is Some ==> asked[5] == "--since"@ && asked[6] == since->0
            &&& asked[asked.len() - 2] == "history"@
            &&& asked[asked.len() - 1] == account_id
        }),
{
}

/// The list in an output starts at the first opening square bracket and reaches
/// to the end of the output.
pub proof fn law_list_starts_at_the_first_bracket(output: Seq<char>)
    ensures
        match from_bracket(output) {
            Some(list) => list.len() > 0 && list.len() <= output.len() && list[0] == '[' && list
                == output.skip(output.len() - list.len()) && forall|k: int|
                0 <= k < output.len() - list.len() ==> output[k] != '[',
            None => !output.contains('['),
        },
{
    crate::text::lemma_first_at(output, '[');
}

fn choose_path(paths: &Vec<String>, present: &Vec<bool>) -> (chosen: Option<String>)
    requires
        paths@.len() == present@.len(),
    ensures
        match chosen {
            Some(path) => first_present(texts(paths@), present@) == Some(path@),
            None => first_present(texts(paths@), present@) is None,
        },
        chosen is None <==> forall|k: int| 0 <= k < present@.len() ==> !(#[trigger] present@[k]),
{
    let ghost every = texts(paths@);
    assert(every.skip(0) =~= every);
    assert(present@.skip(0) =~= present@);
    for i in 0..paths.len()
        invariant
            every == texts(paths@),
            paths@.len() == present@.len(),
            first_present(every, present@) == first_present(
                every.skip(i as int),
                present@.skip(i as int),
            ),
            forall|k: int| 0 <= k < i ==> !(#[trigger] present@[k]),
    {
        assert(every.skip(i as int)[0] == paths@[i as int]@);
        if present[i] {
            return Some(paths[i].clone());
        }
        assert(every.skip(i as int).drop_first() =~= every.skip(i + 1));
        assert(present@.skip(i as int).drop_first() =~= present@.skip(i + 1));
    }
    None
}

/// Where Woob is, or what to tell the user, given which of the places where it
/// may be are present.
pub fn find_woob(home: &str, present: &Vec<bool>) -> (found: Result<String, String>)
    requires
        present@.len() == woob_paths(home@).len(),
    ensures
        match found {
            Ok(path) => first_present(woob_paths(home@), present@) == Some(path@),
            Err(message) => first_present(woob_paths(home@), present@) is None && message@
                == "Woob not found. Install with: pip3 install woob"@,
        },
{
    let paths = woob_candidates(home);
    assert(texts(paths@).len() == paths@.len());
    match choose_path(&paths, present) {
        Some(path) => Ok(path),
        None => Err("Woob not found. Install with: pip3 install woob".to_owned()),
    }
}

/// The interpreter that a script names in its first line: the second word where
/// the first is `env`, the first word otherwise.
pub open spec fn interpreter_of(script: Seq<char>) -> Option<Seq<char>> {
    if lines_of(script).len() == 0 || !starts_with(lines_of(script)[0], "#!"@) {
        None
    } else {
        let parts = words_of(lines_of(script)[0].skip(2));
        if parts.len() >= 2 && ends_with(parts[0], "env"@) {
            Some(parts[1])
        } else if parts.len() >= 1 {
            Some(parts[0])
        } else {
            None
        }
    }
}

/// A script names an interpreter only behind the sign at the start of its first
/// line: the first word there, or the second where the first is `env`, under
/// whatever path.
pub proof fn law_interpreter_stands_in_the_first_line(script: Seq<char>)
    ensures
        lines_of(script).len() == 0 ==> interpreter_of(script) is None,
        lines_of(script).len() > 0 && !(lines_of(script)[0].len() >= 2 && lines_of(script)[0][0]
            == '#' && lines_of(script)[0][1] == '!') ==> interpreter_of(script) is None,
        lines_of(script).len() > 0 && lines_of(script)[0].len() >= 2 && lines_of(script)[0][0]
            == '#' && lines_of(script)[0][1] == '!' ==> {
            let parts = words_of(lines_of(script)[0].skip(2));
            let is_env = parts.len() > 0 && parts[0].len() >= 3 && parts[0].skip(
                parts[0].len() - 3,
            ) == "env"@;
            &&& parts.len() == 0 ==> interpreter_of(script) is None
            &&& parts.len() == 1 ==> interpreter_of(script) == Some(parts[0])
            &&& parts.len() > 1 && !is_env ==> interpreter_of(script) == Some(parts[0])
            &&& parts.len() > 1 && is_env ==> interpreter_of(script) == Some(parts[1])
        },
{
    reveal_strlit("#!");
    reveal_strlit("env");
    if lines_of(script).len() > 0 {
        let line = lines_of(script)[0];
        if line.len() >= 2 {
            let start = line.take(2);
            assert(start[0] == line[0] && start[1] == line[1]);
            if line[0] == '#' && line[1] == '!' {
                assert(start =~= "#!"@);
            }
        }
    }
}

/// The interpreter that a script names in its first line.
pub fn script_interpreter(script: &str) -> (interpreter: Option<String>)
    ensures
        match interpreter {
            Some(name) => interpreter_of(script@) == Some(name@),
            None => interpreter_of(script@) is None,
        },
{
    let all_lines = lines(script);
    assert(texts(all_lines@).len() == all_lines@.len());
    if all_lines.len() == 0 {
        return None;
    }
    assert(texts(all_lines@)[0] == all_lines@[0]@);
    if !text_starts_with(all_lines[0].as_str(), "#!") {
        return None;
    }
    proof {
        reveal_strlit("#!");
    }
    let chars = characters(all_lines[0].as_str());
    let rest = spell(&chars, 2, chars.len());
    assert(rest@ =~= all_lines@[0]@.skip(2));
    let parts = words(rest.as_str());
    let ghost views = texts(parts@);
    assert(views.len() == parts@.len());
    if parts.len() >= 2 && text_ends_with(parts[0].as_str(), "env") {
        assert(views[0] == parts@[0]@ && views[1] == parts@[1]@);
        Some(parts[1].clone())
    } else if parts.len() >= 1 {
        assert(views[0] == parts@[0]@);
        Some(parts[0].clone())
    } else {
        None
    }
}

/// Where the Python that Woob was installed into may be, the likeliest place
/// first: what Woob's own script names comes before the usual places.
pub open spec fn python_paths(interpreter: Option<Seq<char>>) -> Seq<Seq<char>> {
    let usual = seq![
        "/usr/local/bin/python3"@,
        "/opt/homebrew/bin/python3"@,
        "/usr/bin/python3"@,
    ];
    match interpreter {
        Some(name) => seq![
            name,
            "/usr/local/bin"@ + "/"@ + name,
            "/opt/homebrew/bin"@ + "/"@ + name,
            "/usr/bin"@ + "/"@ + name,
        ] + usual,
        None => usual,
    }
}

/// Where the Python that Woob was installed into may be.
pub fn python_candidates(interpreter: &Option<String>) -> (paths: Vec<String>)
    ensures
        texts(paths@) == python_paths(optional_text(*interpreter)),
{
    let mut paths: Vec<String> = Vec::new();
    match interpreter {
        Some(name) => {
            paths.push(name.clone());
            paths.push(chain(chain("/usr/local/bin", "/").as_str(), name.as_str()));
            paths.push(chain(chain("/opt/homebrew/bin", "/").as_str(), name.as_str()));
            paths.push(chain(chain("/usr/bin", "/").as_str(), name.as_str()));
        },
        None => {},
    }
    paths.push("/usr/local/bin/python3".to_owned());
    paths.push("/opt/homebrew/bin/python3".to_owned());
    paths.push("/usr/bin/python3".to_owned());
    assert(texts(paths@) =~= python_paths(optional_text(*interpreter)));
    paths
}

/// The Python to run, given which of the places where it may be are present:
/// whatever `python3` is where none of them is.
pub fn find_python(interpreter: &Option<String>, present: &Vec<bool>) -> (path: String)
    requires
        present@.len() == python_paths(optional_text(*interpreter)).len(),
    ensures
        path@ == match first_present(python_paths(optional_text(*interpreter)), present@) {
            Some(found) => found,
            None => "python3"@,
        },
{
    let paths = python_candidates(interpreter);
    assert(texts(paths@).len() == paths@.len());
    match choose_path(&paths, present) {
        Some(path) => path,
        None => "python3".to_owned(),
    }
}

// ── What it is asked ─────────────────────────────────────────────────────────

/// The arguments by which Woob lists accounts, of one backend or of all.
pub open spec fn list_arguments(backend: Option<Seq<char>>) -> Seq<Seq<char>> {
    match backend {
        Some(backend) => seq!["bank"@, "-b"@, backend, "-f"@, "json"@, "list"@],
        None => seq!["bank"@, "-f"@, "json"@, "list"@],
    }
}

/// The arguments by which Woob lists accounts.
pub fn list_args(backend: &Option<String>) -> (args: Vec<String>)
    ensures
        texts(args@) == list_arguments(optional_text(*backend)),
{
    let mut args: Vec<String> = Vec::new();
    args.push("bank".to_owned());
    match backend {
        Some(backend) => {
            args.push("-b".to_owned());
            args.push(backend.clone());
        },
        None => {},
    }
    args.push("-f".to_owned());
    args.push("json".to_owned());
    args.push("list".to_owned());
    assert(texts(args@) =~= list_arguments(optional_text(*backend)));
    args
}

/// The arguments by which Woob gives the last transactions of an account.
pub open spec fn history_arguments(
    batch: nat,
    since: Option<Seq<char>>,
    account_id: Seq<char>,
) -> Seq<Seq<char>> {
    let start = seq!["bank"@, "-f"@, "json"@, "-n"@, digits_of(batch)];
    let range = match since {
        Some(since) => seq!["--since"@, since],
        None => Seq::empty(),
    };
    start + range + seq!["history"@, account_id]
}

/// The arguments by which Woob gives the last transactions of an account.
pub fn history_args(batch: u64, since: &Option<String>, account_id: &str) -> (args: Vec<String>)
    ensures
        texts(args@) == history_arguments(batch as nat, optional_text(*since), account_id@),
{
    let mut args: Vec<String> = Vec::new();
    args.push("bank".to_owned());
    args.push("-f".to_owned());
    args.push("json".to_owned());
    args.push("-n".to_owned());
    args.push(print_number(batch));
    match since {
        Some(since) => {
            args.push("--since".to_owned());
            args.push(since.clone());
        },
        None => {},
    }
    args.push("history".to_owned());
    args.push(account_id.to_owned());
    assert(texts(args@) =~= history_arguments(batch as nat, optional_text(*since), account_id@));
    args
}

/// The script that lists the bank modules.
pub const MODULES_SCRIPT: &'static str = r#"
import json, sys
try:
    from woob.core import Woob
    w = Woob()
    modules = w.repositories.get_all_modules_info()
    result = [
        {'name': name, 'description': info.description or name}
        for name, info in sorted(modules.items())
        if 'CapBank' in str(info.capabilities)
    ]
    print(json.dumps(result))
except Exception as e:
    print(str(e), file=sys.stderr)
    sys.exit(1)
"#;

/// The script that lists the fields of a module, up to the module's name.
pub const CONFIG_SCRIPT_START: &'static str = r#"
import json, sys
try:
    from woob.core import Woob
    w = Woob()
    m = w.load_or_install_module("#;

/// The script that lists the fields of a module, behind the module's name.
pub const CONFIG_SCRIPT_END: &'static str = r#")
    result = [
        {
            'name': fname,
            'label': getattr(field, 'description', fname) or fname,
            'masked': bool(getattr(field, 'masked', False)),
        }
        for fname, field in m.klass.CONFIG.items()
        if field.__class__.__name__ != 'ValueTransient'
    ]
    print(json.dumps(result))
except Exception as e:
    print(str(e), file=sys.stderr)
    sys.exit(1)
"#;

/// The script that lists the fields of a module, the module's name in quotes.
pub fn config_script(quoted_module: &str) -> (script: String)
    ensures
        script@ == CONFIG_SCRIPT_START@ + quoted_module@ + CONFIG_SCRIPT_END@,
{
    chain(chain(CONFIG_SCRIPT_START, quoted_module).as_str(), CONFIG_SCRIPT_END)
}

/// The script that lists the fields of a module.
pub fn module_config_script(module: &str) -> (script: String)
    ensures
        script@ == CONFIG_SCRIPT_START@ + json_text(module@) + CONFIG_SCRIPT_END@,
{
    config_script(write_json_text(module).as_str())
}

// ── What it answers ──────────────────────────────────────────────────────────

/// What stands from the first opening square bracket on.
pub open spec fn from_bracket(output: Seq<char>) -> Option<Seq<char>> {
    match first_at(output, '[') {
        Some(k) => Some(output.skip(k)),
        None => None,
    }
}

/// The JSON list in an output: Woob may print warnings before it.
pub fn json_list(output: &str) -> (json: Option<String>)
    ensures
        match json {
            Some(found) => from_bracket(output@) == Some(found@),
            None => !output@.contains('['),
        },
{
    let chars = characters(output);
    proof {
        crate::text::lemma_first_at(chars@, '[');
    }
    match find_char(&chars, '[') {
        Some(k) => {
            let json = spell(&chars, k, chars.len());
            assert(json@ =~= output@.skip(k as int));
            Some(json)
        },
        None => None,
    }
}

/// What to tell the user of a program that failed: what it printed, without the
/// white space around it.
pub fn failure_message(program: &str, stderr: &str) -> (message: String)
    ensures
        message@ == program@ + " error: "@ + trimmed(stderr@),
{
    chain(chain(program, " error: ").as_str(), trim(stderr).as_str())
}

/// A bank module of Woob.
#[derive(Debug)]
pub struct BankModule {
    pub name: String,
    pub description: String,
}

/// A field that a module has to be given.
#[derive(Debug)]
pub struct ModuleField {
    pub name: String,
    pub label: String,
    pub masked: bool,
}

} // verus!
