//! The decisions of the `nebula` package manager's command line: which
//! command the arguments ask for, the files a new project starts with, and
//! how a dependency is added to a manifest's text.

use vstd::prelude::*;
use crate::text::{chars_of, push_char, push_str, str_to_string};

verus! {

/// A command of the package manager.
#[derive(Debug)]
pub enum Command {
    /// No command was given: the help is shown and the tool fails.
    Missing,
    /// Create a project of the given name.
    New(String),
    Build,
    Run,
    /// Add the named constellation to the dependencies.
    Add(String),
    Test,
    Clean,
    Help,
}

/// Whether `s` spells `lit`.
fn same_text(s: &String, lit: &str) -> (r: bool)
    ensures
        r == (s@ == lit@),
{
    *s == str_to_string(lit)
}

/// The command that the arguments (the program's name first) ask for, or the
/// usage error.
pub fn parse_command(args: &Vec<String>) -> (r: Result<Command, String>)
    ensures
        args@.len() < 2 ==> r matches Ok(Command::Missing),
        args@.len() >= 2 ==> {
            let c = args@[1]@;
            if c == "new"@ {
                if args@.len() < 3 {
                    r matches Err(m) && m@ == "Usage: nebula new <project-name>"@
                } else {
                    r matches Ok(Command::New(n)) && n@ == args@[2]@
                }
            } else if c == "add"@ {
                if args@.len() < 3 {
                    r matches Err(m) && m@ == "Usage: nebula add <constellation>"@
                } else {
                    r matches Ok(Command::Add(n)) && n@ == args@[2]@
                }
            } else if c == "build"@ {
                r matches Ok(Command::Build)
            } else if c == "run"@ {
                r matches Ok(Command::Run)
            } else if c == "test"@ {
                r matches Ok(Command::Test)
            } else if c == "clean"@ {
                r matches Ok(Command::Clean)
            } else if c == "help"@ || c == "--help"@ || c == "-h"@ {
                r matches Ok(Command::Help)
            } else {
                r matches Err(m) && m@ == "Unknown command: "@ + c + ". Use 'nebula help' for usage."@
            }
        },
{
    if args.len() < 2 {
        return Ok(Command::Missing);
    }
    let c = &args[1];
    if same_text(c, "new") {
        if args.len() < 3 {
            Err(str_to_string("Usage: nebula new <project-name>"))
        } else {
            Ok(Command::New(args[2].clone()))
        }
    } else if same_text(c, "add") {
        if args.len() < 3 {
            Err(str_to_string("Usage: nebula add <constellation>"))
        } else {
            Ok(Command::Add(args[2].clone()))
        }
    } else if same_text(c, "build") {
        Ok(Command::Build)
    } else if same_text(c, "run") {
        Ok(Command::Run)
    } else if same_text(c, "test") {
        Ok(Command::Test)
    } else if same_text(c, "clean") {
        Ok(Command::Clean)
    } else if same_text(c, "help") || same_text(c, "--help") || same_text(c, "-h") {
        Ok(Command::Help)
    } else {
        let mut m = str_to_string("Unknown command: ");
        push_str(&mut m, c.as_str());
        push_str(&mut m, ". Use 'nebula help' for usage.");
        Err(m)
    }
}

/// The manifest a new project starts with.
pub open spec fn new_manifest_text(name: Seq<char>) -> Seq<char> {
    "[package]\nname = \""@ + name + "\"\nversion = \"0.1.0\"\nauthors = [\"\"]\ndescription = \"\"\n\n[dependencies]\n"@
}

/// The `nova.toml` of a new project named `name`.
pub fn new_project_manifest(name: &str) -> (r: String)
    ensures
        r@ == new_manifest_text(name@),
{
    let mut s = str_to_string("[package]\nname = \"");
    push_str(&mut s, name);
    push_str(&mut s, "\"\nversion = \"0.1.0\"\nauthors = [\"\"]\ndescription = \"\"\n\n[dependencies]\n");
    s
}

/// The `src/main.nv` of a new project.
pub fn new_project_main() -> (r: String)
    ensures
        r@ == "mission main() -> Void {\n    transmit(\"Hello from NOVA!\")\n}\n"@,
{
    str_to_string("mission main() -> Void {\n    transmit(\"Hello from NOVA!\")\n}\n")
}

/// Whether `t` occurs in `s`.
pub open spec fn occurs_in(t: Seq<char>, s: Seq<char>) -> bool {
    exists|i: int| 0 <= i && i + t.len() <= s.len() && #[trigger] s.subrange(i, i + t.len()) == t
}

/// Whether `t` occurs in `s` at position `i`.
fn matches_at(s: &Vec<char>, t: &Vec<char>, i: usize) -> (r: bool)
    requires
        i + t@.len() <= s@.len(),
    ensures
        r == (s@.subrange(i as int, i + t@.len()) == t@),
{
    let slen = s.len();
    let mut k: usize = 0;
    while k < t.len()
        invariant
            slen == s@.len(),
            k <= t@.len(),
            i + t@.len() <= s@.len(),
            forall|j: int| 0 <= j < k ==> s@[i + j] == t@[j],
        decreases t@.len() - k,
    {
        assert(i + k < s@.len());
        if s[i + k] != t[k] {
            assert(s@.subrange(i as int, i + t@.len())[k as int] != t@[k as int]);
            return false;
        }
        k = k + 1;
    }
    assert(s@.subrange(i as int, i + t@.len()) =~= t@);
    true
}

/// Whether `t` occurs in `s`.
fn occurs(s: &Vec<char>, t: &Vec<char>) -> (r: bool)
    ensures
        r == occurs_in(t@, s@),
{
    if t.len() > s.len() {
        return false;
    }
    if t.len() == 0 {
        assert(s@.subrange(0int, 0int + t@.len()) =~= t@);
        return true;
    }
    let slen = s.len();
    let last = slen - t.len();
    let mut i: usize = 0;
    while i <= last
        invariant
            slen == s@.len(),
            t@.len() > 0,
            last + t@.len() == s@.len(),
            forall|j: int| 0 <= j < i ==> #[trigger] s@.subrange(j, j + t@.len()) != t@,
        decreases last + 1 - i,
    {
        if matches_at(s, t, i) {
            return true;
        }
        i = i + 1;
    }
    assert(!occurs_in(t@, s@)) by {
        if occurs_in(t@, s@) {
            let j = choose|j: int| 0 <= j && j + t@.len() <= s@.len() && #[trigger] s@.subrange(j, j + t@.len()) == t@;
            assert(s@.subrange(j, j + t@.len()) != t@);
        }
    }
    false
}

/// The manifest text `content` with `dep = "latest"` added on a line of its
/// own at the end, or the error that a line already names `dep` (the text
/// `dep =` occurs in it).
pub fn add_dependency_entry(content: &str, dep: &str) -> (r: Result<String, String>)
    ensures
        occurs_in(dep@ + " ="@, content@) ==> (r matches Err(m) && m@ == "Dependency '"@ + dep@ + "' already exists"@),
        !occurs_in(dep@ + " ="@, content@) ==> (r matches Ok(s) && s@ == (if content@.len() > 0 && content@.last() == '\n' {
            content@
        } else {
            content@.push('\n')
        }) + dep@ + " = \"latest\"\n"@),
{
    let mut key = str_to_string(dep);
    push_str(&mut key, " =");
    let text = chars_of(content);
    let key_chars = chars_of(key.as_str());
    if occurs(&text, &key_chars) {
        let mut m = str_to_string("Dependency '");
        push_str(&mut m, dep);
        push_str(&mut m, "' already exists");
        return Err(m);
    }
    let mut s = str_to_string(content);
    let ends_with_newline = text.len() > 0 && text[text.len() - 1] == '\n';
    if !ends_with_newline {
        push_char(&mut s, '\n');
    }
    push_str(&mut s, dep);
    push_str(&mut s, " = \"latest\"\n");
    Ok(s)
}

} // verus!
