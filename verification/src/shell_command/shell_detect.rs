//! Which shell a program is.

use vstd::prelude::*;

use crate::paths;
use crate::text;

verus! {

/// A kind of shell.
#[derive(Clone, Copy, Debug, PartialEq, Eq, Structural)]
pub enum ShellType {
    Zsh,
    Bash,
    PowerShell,
    Sh,
    Cmd,
}

/// The shell with the name.
pub open spec fn shell_named(name: Seq<char>) -> Option<ShellType> {
    if name == "zsh"@ {
        Some(ShellType::Zsh)
    } else if name == "sh"@ {
        Some(ShellType::Sh)
    } else if name == "cmd"@ {
        Some(ShellType::Cmd)
    } else if name == "bash"@ {
        Some(ShellType::Bash)
    } else if name == "pwsh"@ || name == "powershell"@ {
        Some(ShellType::PowerShell)
    } else {
        None
    }
}

/// The shell at the path: the one that the path names, or else its last step
/// without endings.
pub open spec fn shell_at(path: Seq<char>) -> Option<ShellType>
    decreases path.len(),
{
    if shell_named(path) is Some {
        shell_named(path)
    } else {
        match paths::stem_of(path) {
            Some(stem) => if paths::path_steps(stem) != paths::path_steps(path) && stem.len() < path.len() {
                shell_at(stem)
            } else {
                None
            },
            None => None,
        }
    }
}

/// Each shell is known by its name, and a path that names none is that of the shell
/// that its last step without ending is.
pub proof fn law_shell_names(path: Seq<char>)
    ensures
        shell_at("zsh"@) == Some(ShellType::Zsh),
        shell_at("bash"@) == Some(ShellType::Bash),
        shell_at("sh"@) == Some(ShellType::Sh),
        shell_at("cmd"@) == Some(ShellType::Cmd),
        shell_at("pwsh"@) == Some(ShellType::PowerShell),
        shell_at("powershell"@) == Some(ShellType::PowerShell),
        shell_named(path) is Some ==> path == "zsh"@ || path == "bash"@ || path == "sh"@ || path == "cmd"@ || path
            == "pwsh"@ || path == "powershell"@,
        shell_named(path) is None ==> (shell_at(path) is Some ==> paths::stem_of(path) is Some && shell_at(path)
            == shell_at(paths::stem_of(path)->0)),
        shell_named(path) is None ==> (paths::stem_of(path) matches Some(stem) ==> shell_named(stem) is Some && stem.len()
            < path.len() && paths::path_steps(stem) != paths::path_steps(path) ==> shell_at(path) == shell_named(stem)),
{
    reveal_strlit("zsh");
    reveal_strlit("bash");
    reveal_strlit("sh");
    reveal_strlit("cmd");
    reveal_strlit("pwsh");
    reveal_strlit("powershell");
    assert("zsh"@[0] == 'z');
    assert("bash"@[0] == 'b');
    assert("sh"@[0] == 's');
    assert("cmd"@[0] == 'c');
    assert("pwsh"@.len() == 4 && "pwsh"@[0] == 'p');
    assert("powershell"@.len() == 10 && "powershell"@[0] == 'p');
    reveal_with_fuel(shell_at, 2);
}

fn named(name: &str) -> (r: Option<ShellType>)
    ensures
        r == shell_named(name@),
{
    if text::str_eq(name, "zsh") {
        Some(ShellType::Zsh)
    } else if text::str_eq(name, "sh") {
        Some(ShellType::Sh)
    } else if text::str_eq(name, "cmd") {
        Some(ShellType::Cmd)
    } else if text::str_eq(name, "bash") {
        Some(ShellType::Bash)
    } else if text::str_eq(name, "pwsh") || text::str_eq(name, "powershell") {
        Some(ShellType::PowerShell)
    } else {
        None
    }
}

/// The shell at the path.
pub fn detect_shell_type(path: &str) -> (r: Option<ShellType>)
    ensures
        r == shell_at(path@),
    decreases path@.len(),
{
    if let Some(shell) = named(path) {
        return Some(shell);
    }
    match paths::file_stem(path) {
        Some(stem) => {
            let s = paths::components(stem.as_str());
            let p = paths::components(path);
            let same = s.len() == p.len() && paths::begins_with(&s, &p);
            assert(same == (paths::path_steps(stem@) == paths::path_steps(path@))) by {
                assert(paths::step_views(s@).len() == s@.len());
                assert(paths::step_views(p@).len() == p@.len());
                assert(paths::step_views(s@).take(s@.len() as int) =~= paths::step_views(s@));
            }
            if !same && text::char_vec(stem.as_str()).len() < text::char_vec(path).len() {
                detect_shell_type(stem.as_str())
            } else {
                None
            }
        },
        None => None,
    }
}

/// A shell is known by its file, in whatever directory that lies, and with the
/// ending of an executable too; a file that is named otherwise is no shell.
pub proof fn law_shell_is_known_by_its_file(base: Seq<char>, name: Seq<char>)
    requires
        paths::path_steps(base).len() > 0,
        base.len() > 0,
        name.len() > 0,
        !name.contains('/'),
        !name.contains('.'),
    ensures
        shell_at(paths::joined_path(base, name)) == shell_named(name),
        shell_at(paths::joined_path(base, name + ".exe"@)) == shell_named(name),
{
    reveal_strlit(".exe");
    reveal_strlit("zsh");
    reveal_strlit("bash");
    reveal_strlit("sh");
    reveal_strlit("cmd");
    reveal_strlit("pwsh");
    reveal_strlit("powershell");
    let file = name + ".exe"@;
    assert(name[0] != '.' && name[0] != '/') by {
        assert(name.contains(name[0]));
    }
    assert(!file.contains('/')) by {
        if file.contains('/') {
            let k = choose|k: int| 0 <= k < file.len() && file[k] == '/';
            if k < name.len() {
                assert(name[k] == '/');
                assert(name.contains('/'));
            }
        }
    }
    assert(file[0] == name[0]);
    lemma_shell_in_directory(base, name, name);
    let ending = "exe"@;
    reveal_strlit("exe");
    assert(!ending.contains('.'));
    assert(name + seq!['.'] + ending =~= file);
    paths::law_joined_name_is_one_step_further(base, name);
    paths::law_stem_stands_in_front_of_the_last_dot(paths::joined_path(base, name), name, name);
    paths::law_joined_name_is_one_step_further(base, file);
    paths::law_stem_stands_in_front_of_the_last_dot(paths::joined_path(base, file), name, ending);
    lemma_shell_in_directory(base, file, name);
}

proof fn lemma_shell_in_directory(base: Seq<char>, file: Seq<char>, name: Seq<char>)
    requires
        paths::path_steps(base).len() > 0,
        base.len() > 0,
        file.len() > 0,
        file[0] != '.',
        !file.contains('/'),
        name.len() > 0,
        name[0] != '.',
        name.len() <= file.len(),
        !name.contains('/'),
        !name.contains('.'),
    ensures
        paths::stem_of(paths::joined_path(base, file)) == Some(name) ==> shell_at(paths::joined_path(base, file))
            == shell_named(name),
{
    reveal_strlit("zsh");
    reveal_strlit("bash");
    reveal_strlit("sh");
    reveal_strlit("cmd");
    reveal_strlit("pwsh");
    reveal_strlit("powershell");
    reveal_with_fuel(shell_at, 2);
    let path = paths::joined_path(base, file);
    paths::law_joined_name_is_one_step_further(base, file);
    paths::law_joined_name_is_one_step_further(Seq::empty(), name);
    assert(paths::joined_path(Seq::empty(), name) =~= name);
    paths::law_dots_are_steps_of_their_own(base);
    paths::law_absolute_path_stands_for_itself(base, file);
    assert(path.len() > file.len());
    assert(paths::path_steps(name).len() == 1);
    assert(paths::path_steps(path).len() > 1);
    assert(paths::path_steps("zsh"@).len() == 1 && paths::path_steps("bash"@).len() == 1 && paths::path_steps(
        "sh"@,
    ).len() == 1 && paths::path_steps("cmd"@).len() == 1 && paths::path_steps("pwsh"@).len() == 1
        && paths::path_steps("powershell"@).len() == 1) by {
        lemma_one_step("zsh"@);
        lemma_one_step("bash"@);
        lemma_one_step("sh"@);
        lemma_one_step("cmd"@);
        lemma_one_step("pwsh"@);
        lemma_one_step("powershell"@);
    }
    assert(shell_named(path) is None);
    if paths::stem_of(path) == Some(name) && shell_named(name) is None {
        paths::law_stem_stands_in_front_of_the_last_dot(name, name, name);
    }
}

proof fn lemma_one_step(name: Seq<char>)
    requires
        name.len() > 0,
        name[0] != '.',
        !name.contains('/'),
    ensures
        paths::path_steps(name).len() == 1,
{
    paths::law_joined_name_is_one_step_further(Seq::empty(), name);
    paths::law_dots_are_steps_of_their_own(Seq::empty());
    assert(paths::joined_path(Seq::empty(), name) =~= name);
}

} // verus!
