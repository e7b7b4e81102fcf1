//! The plain commands in the scripts that shells are called with.

use vstd::prelude::*;

use crate::shell_command::quoting;
use crate::shell_command::shell_detect;
use crate::shell_command::shell_detect::detect_shell_type;
use crate::shell_command::shell_detect::ShellType;
use crate::shell_command::syntax;
use crate::shell_command::syntax::node_text;
use crate::shell_command::syntax::try_parse_shell;
use crate::shell_command::syntax::ShellNode;
use crate::shell_command::syntax::SyntaxView;
use crate::text;

verus! {

// ---------------------------------------------------------------------
// Calls of a shell
// ---------------------------------------------------------------------

/// Whether the program is called with the flag to run a script, and is a shell
/// whose scripts are read here.
pub open spec fn runs_script(shell: Seq<char>, flag: Seq<char>) -> bool {
    (flag == "-lc"@ || flag == "-c"@) && (shell_detect::shell_at(shell) == Some(ShellType::Zsh)
        || shell_detect::shell_at(shell) == Some(ShellType::Bash) || shell_detect::shell_at(shell) == Some(
        ShellType::Sh,
    ))
}

fn is_recognised_bash_lc_invocation(shell: &str, flag: &str) -> (r: bool)
    ensures
        r == runs_script(shell@, flag@),
{
    (text::str_eq(flag, "-lc") || text::str_eq(flag, "-c")) && match detect_shell_type(shell) {
        Some(ShellType::Zsh) => true,
        Some(ShellType::Bash) => true,
        Some(ShellType::Sh) => true,
        _ => false,
    }
}

/// The script that a call of a shell with a flag and one argument runs.
pub open spec fn script_of(command: Seq<Seq<char>>) -> Option<Seq<char>> {
    if command.len() == 3 && runs_script(command[0], command[1]) {
        Some(command[2])
    } else {
        None
    }
}

/// The shell that is called and the script that it runs.
pub fn extract_bash_command<'a>(command: &'a [String]) -> (r: Option<(&'a str, &'a str)>)
    ensures
        match r {
            Some((shell, script)) => script_of(text::views(command@)) == Some(script@) && shell@ == command@[0]@,
            None => script_of(text::views(command@)) is None,
        },
{
    if command.len() != 3 {
        return None;
    }
    if !is_recognised_bash_lc_invocation(command[0].as_str(), command[1].as_str()) {
        return None;
    }
    Some((command[0].as_str(), command[2].as_str()))
}

/// Whether the character is part of an operator of the shell.
pub open spec fn is_operator_char(c: char) -> bool {
    c == '<' || c == '>' || c == '|' || c == '&' || c == ';' || c == '(' || c == ')'
}

/// Whether the word is an operator of the shell, with or without the numbers of
/// the files that it joins.
pub open spec fn is_operator(token: Seq<char>) -> bool {
    (exists|i: int| 0 <= i < token.len() && is_operator_char(#[trigger] token[i])) && forall|i: int|
        0 <= i < token.len() ==> (text::is_digit(#[trigger] token[i]) || is_operator_char(token[i]))
}

/// Whether the word begins with the operator and goes on.
pub open spec fn goes_on(word: Seq<char>, operator: Seq<char>) -> bool {
    text::has_prefix(word, operator) && word.len() > operator.len()
}

/// Whether the word is a redirection together with its target.
pub open spec fn is_attached_redirection(token: Seq<char>) -> bool {
    let word = token.skip(text::leading_digits(token) as int);
    ||| goes_on(word, "&>>"@)
    ||| goes_on(word, "<<<"@)
    ||| goes_on(word, ">>"@)
    ||| goes_on(word, "<<"@)
    ||| goes_on(word, "<>"@)
    ||| goes_on(word, ">|"@)
    ||| goes_on(word, ">&"@)
    ||| goes_on(word, "<&"@)
    ||| goes_on(word, "&>"@)
    ||| goes_on(word, ">"@)
    ||| goes_on(word, "<"@)
}

/// What a word of a script is written as. Operators and redirections stay as
/// they are.
pub open spec fn written(token: Seq<char>) -> Option<Seq<char>> {
    if is_operator(token) || is_attached_redirection(token) {
        Some(token)
    } else {
        quoting::quote_outcome(token)
    }
}

/// The script that the words make, where each can be written.
pub open spec fn joined_script(tokens: Seq<Seq<char>>) -> Option<Seq<char>>
    decreases tokens.len(),
{
    if tokens.len() == 0 {
        Some(Seq::empty())
    } else {
        match (joined_script(tokens.drop_last()), written(tokens.last())) {
            (Some(before), Some(word)) => Some(
                if before.len() == 0 {
                    word
                } else {
                    before.push(' ') + word
                },
            ),
            _ => None,
        }
    }
}

/// The script that a call of a shell runs, where the words behind the flag, if
/// there are several, are the words of the script.
pub open spec fn script_of_words(command: Seq<Seq<char>>) -> Option<Seq<char>> {
    if command.len() == 3 {
        script_of(command)
    } else if command.len() > 3 && runs_script(command[0], command[1]) {
        match joined_script(command.skip(2)) {
            Some(script) => Some(script),
            None => Some("<command included NUL byte>"@),
        }
    } else {
        None
    }
}

fn operator_char(c: char) -> (r: bool)
    ensures
        r == is_operator_char(c),
{
    c == '<' || c == '>' || c == '|' || c == '&' || c == ';' || c == '(' || c == ')'
}

fn operator_token(cs: &Vec<char>) -> (r: bool)
    ensures
        r == is_operator(cs@),
{
    let mut any: bool = false;
    let mut i: usize = 0;
    while i < cs.len()
        invariant
            i <= cs@.len(),
            any == exists|k: int| 0 <= k < i && is_operator_char(#[trigger] cs@[k]),
            forall|k: int| 0 <= k < i ==> (text::is_digit(#[trigger] cs@[k]) || is_operator_char(cs@[k])),
        decreases cs@.len() - i,
    {
        let c = cs[i];
        let part = operator_char(c);
        if !part && !(c >= '0' && c <= '9') {
            assert(!(text::is_digit(cs@[i as int]) || is_operator_char(cs@[i as int])));
            return false;
        }
        any = any || part;
        i = i + 1;
    }
    any
}

fn continues(word: &str, operator: &str) -> (r: bool)
    ensures
        r == goes_on(word@, operator@),
{
    text::starts_with(word, operator) && text::char_vec(word).len() > text::char_vec(operator).len()
}

fn attached_redirection(cs: &Vec<char>) -> (r: bool)
    ensures
        r == is_attached_redirection(cs@),
{
    assert(cs@.skip(0) =~= cs@);
    let from: usize = text::digits_end(cs, 0);
    let rest = text::slice_of(cs, from, cs.len());
    assert(rest@ =~= cs@.skip(from as int));
    let word = rest.as_str();
    continues(word, "&>>") || continues(word, "<<<") || continues(word, ">>") || continues(word, "<<") || continues(
        word,
        "<>",
    ) || continues(word, ">|") || continues(word, ">&") || continues(word, "<&") || continues(word, "&>")
        || continues(word, ">") || continues(word, "<")
}

proof fn lemma_unwritten_stays(tokens: Seq<Seq<char>>, n: int)
    requires
        0 <= n <= tokens.len(),
        joined_script(tokens.take(n)) is None,
    ensures
        joined_script(tokens) is None,
    decreases tokens.len(),
{
    if n < tokens.len() {
        assert(tokens.drop_last().take(n) =~= tokens.take(n));
        lemma_unwritten_stays(tokens.drop_last(), n);
    } else {
        assert(tokens.take(n) =~= tokens);
    }
}

/// The shell that is called and the script that it runs, where the words behind
/// the flag, if there are several, are the words of the script. Not for
/// judging what a call does: behind the flag may stand arguments of a script.
pub fn extract_bash_command_joined(command: &[String]) -> (r: Option<(String, String)>)
    ensures
        match r {
            Some((shell, script)) => script_of_words(text::views(command@)) == Some(script@) && shell@
                == command@[0]@,
            None => script_of_words(text::views(command@)) is None,
        },
{
    let ghost all = text::views(command@);
    if let Some((shell, script)) = extract_bash_command(command) {
        return Some((shell.to_string(), script.to_string()));
    }
    if command.len() < 4 || !is_recognised_bash_lc_invocation(command[0].as_str(), command[1].as_str()) {
        return None;
    }
    let ghost tokens = all.skip(2);
    let mut script = String::new();
    let mut i: usize = 2;
    assert(tokens.take(0) =~= Seq::empty());
    while i < command.len()
        invariant
            2 <= i <= command@.len(),
            command@.len() > 3,
            all == text::views(command@),
            tokens == all.skip(2),
            runs_script(all[0], all[1]),
            joined_script(tokens.take(i - 2)) == Some(script@),
        decreases command@.len() - i,
    {
        proof {
            assert(tokens.take(i - 1).drop_last() =~= tokens.take(i - 2));
            assert(tokens.take(i - 1).last() == command@[i as int]@);
        }
        let token = command[i].as_str();
        let cs = text::char_vec(token);
        let word = if operator_token(&cs) || attached_redirection(&cs) {
            token.to_string()
        } else {
            match quoting::quote_word(token) {
                Some(word) => word,
                None => {
                    proof {
                        lemma_unwritten_stays(tokens, i - 1);
                    }
                    return Some((command[0].clone(), "<command included NUL byte>".to_string()));
                },
            }
        };
        if text::char_vec(script.as_str()).len() > 0 {
            script.push(' ');
            script.push_str(word.as_str());
        } else {
            script = word;
        }
        i = i + 1;
    }
    assert(tokens.take(tokens.len() as int) =~= tokens);
    Some((command[0].clone(), script))
}

/// A call whose script is one word is read alike whether or not further words
/// would be, and whether a call is read depends on the shell and the flag alone.
pub proof fn law_joined_call_agrees_with_strict(command: Seq<Seq<char>>)
    ensures
        script_of(command) is Some ==> script_of_words(command) == script_of(command),
        script_of_words(command) is Some ==> command.len() >= 3,
        command.len() >= 3 ==> (script_of_words(command) is Some <==> runs_script(command[0], command[1])),
{
}

/// A call runs a script exactly where it is a shell of the kinds `bash`, `zsh` and
/// `sh` with the flag `-lc` or `-c` and one word behind it, and the script is that
/// word.
pub proof fn law_script_is_the_word_behind_the_flag(command: Seq<Seq<char>>)
    ensures
        script_of(command) is Some <==> {
            &&& command.len() == 3
            &&& command[1] == "-lc"@ || command[1] == "-c"@
            &&& shell_detect::shell_at(command[0]) matches Some(shell)
            &&& shell is Bash || shell is Zsh || shell is Sh
        },
        script_of(command) matches Some(script) ==> script == command[2],
{
}

/// The words of a script are written one after the other with a space between them.
/// A word that is made of the characters of operators and of digits, with at least
/// one of the former, stays as it is, and so does one that begins with `<` or `>`
/// and goes on; other words are quoted, and cannot be where they hold a zero.
pub proof fn law_script_of_words(tokens: Seq<Seq<char>>, token: Seq<char>, before: Seq<char>)
    requires
        joined_script(tokens) == Some(before),
    ensures
        joined_script(Seq::empty()) == Some(Seq::<char>::empty()),
        (exists|i: int|
            0 <= i < token.len() && (#[trigger] token[i] == '<' || token[i] == '>' || token[i] == '|' || token[i] == '&'
                || token[i] == ';' || token[i] == '(' || token[i] == ')')) && (forall|i: int|
            0 <= i < token.len() ==> (#[trigger] token[i] == '<' || token[i] == '>' || token[i] == '|' || token[i] == '&'
                || token[i] == ';' || token[i] == '(' || token[i] == ')' || '0' <= token[i] <= '9'))
            ==> written(token) == Some(token),
        token.len() > 1 && (token[0] == '<' || token[0] == '>') ==> written(token) == Some(token),
        written(token) is None ==> token.contains('\0'),
        written(token) != Some(token) && !token.contains('\0') ==> written(token) == Some(quoting::quoted_word(token)),
        (forall|i: int|
            0 <= i < token.len() ==> !(#[trigger] token[i] == '<' || token[i] == '>' || token[i] == '|' || token[i] == '&'
                || token[i] == ';' || token[i] == '(' || token[i] == ')')) ==> written(token) == quoting::quote_outcome(
            token,
        ),
        match written(token) {
            None => joined_script(tokens.push(token)) is None,
            Some(word) => joined_script(tokens.push(token)) == Some(
                if before.len() == 0 {
                    word
                } else {
                    before + seq![' '] + word
                },
            ),
        },
{
    assert(tokens.push(token).drop_last() =~= tokens);
    if let Some(word) = written(token) {
        assert(before.push(' ') + word =~= before + seq![' '] + word);
    }
    if token.len() > 1 && (token[0] == '<' || token[0] == '>') {
        reveal_strlit(">");
        reveal_strlit("<");
        assert(text::leading_digits(token) == 0);
        assert(token.skip(0) =~= token);
        assert(token.take(1) =~= seq![token[0]]);
        assert(">"@ =~= seq!['>']);
        assert("<"@ =~= seq!['<']);
    }
    if forall|i: int|
        0 <= i < token.len() ==> !(#[trigger] token[i] == '<' || token[i] == '>' || token[i] == '|' || token[i] == '&'
            || token[i] == ';' || token[i] == '(' || token[i] == ')') {
        let d = text::leading_digits(token) as int;
        text::lemma_leading_digits_bound(token);
        let word = token.skip(d);
        assert forall|i: int| 0 <= i < word.len() implies word[i] != '<' && word[i] != '>' && word[i] != '&' by {
            assert(word[i] == token[d + i]);
        }
        lemma_no_redirection(word);
    }
}

proof fn lemma_no_redirection(word: Seq<char>)
    requires
        forall|i: int| 0 <= i < word.len() ==> word[i] != '<' && word[i] != '>' && word[i] != '&',
    ensures
        !goes_on(word, "&>>"@),
        !goes_on(word, "<<<"@),
        !goes_on(word, ">>"@),
        !goes_on(word, "<<"@),
        !goes_on(word, "<>"@),
        !goes_on(word, ">|"@),
        !goes_on(word, ">&"@),
        !goes_on(word, "<&"@),
        !goes_on(word, "&>"@),
        !goes_on(word, ">"@),
        !goes_on(word, "<"@),
{
    reveal_strlit("&>>");
    reveal_strlit("<<<");
    reveal_strlit(">>");
    reveal_strlit("<<");
    reveal_strlit("<>");
    reveal_strlit(">|");
    reveal_strlit(">&");
    reveal_strlit("<&");
    reveal_strlit("&>");
    reveal_strlit(">");
    reveal_strlit("<");
    assert forall|operator: Seq<char>| operator.len() > 0 && (operator[0] == '<' || operator[0] == '>' || operator[0]
        == '&') implies !#[trigger] goes_on(word, operator) by {
        if goes_on(word, operator) {
            assert(word.take(operator.len() as int)[0] == operator[0]);
            assert(word[0] == operator[0]);
        }
    }
    assert("&>>"@[0] == '&');
    assert("<<<"@[0] == '<');
    assert(">>"@[0] == '>');
    assert("<<"@[0] == '<');
    assert("<>"@[0] == '<');
    assert(">|"@[0] == '>');
    assert(">&"@[0] == '>');
    assert("<&"@[0] == '<');
    assert("&>"@[0] == '&');
    assert(">"@[0] == '>');
    assert("<"@[0] == '<');
}

// ---------------------------------------------------------------------
// Plain commands
// ---------------------------------------------------------------------

/// The kinds of nodes that scripts of plain commands are made of.
pub open spec fn is_plain_kind(kind: Seq<char>) -> bool {
    ||| kind == "program"@
    ||| kind == "list"@
    ||| kind == "pipeline"@
    ||| kind == "command"@
    ||| kind == "command_name"@
    ||| kind == "word"@
    ||| kind == "string"@
    ||| kind == "string_content"@
    ||| kind == "raw_string"@
    ||| kind == "number"@
    ||| kind == "concatenation"@
}

/// The operators and quotes that scripts of plain commands are made of.
pub open spec fn is_plain_token(kind: Seq<char>) -> bool {
    ||| kind == "&&"@
    ||| kind == "||"@
    ||| kind == ";"@
    ||| kind == "|"@
    ||| kind == "\""@
    ||| kind == "'"@
    ||| text::trimmed(kind).len() == 0
}

/// Whether the node may stand in a script of plain commands.
pub open spec fn is_plain_node(n: SyntaxView) -> bool {
    if n.named {
        is_plain_kind(n.kind)
    } else {
        is_plain_token(n.kind)
    }
}

/// Whether the node and all nodes in it may stand in a script of plain commands.
pub open spec fn is_plain(n: SyntaxView) -> bool
    decreases n,
{
    is_plain_node(n) && are_plain(n.children)
}

/// Whether the nodes and all nodes in them may stand in a script of plain
/// commands.
pub open spec fn are_plain(nodes: Seq<SyntaxView>) -> bool
    decreases nodes,
{
    nodes.len() == 0 || (is_plain(nodes.last()) && are_plain(nodes.drop_last()))
}

/// The commands in the node, a node before those in it and the last of several
/// nodes first.
pub open spec fn commands_in(n: SyntaxView) -> Seq<SyntaxView>
    decreases n,
{
    (if n.named && n.kind == "command"@ {
        seq![n]
    } else {
        Seq::empty()
    }) + commands_among(n.children)
}

/// The commands in the nodes, the last of them first.
pub open spec fn commands_among(nodes: Seq<SyntaxView>) -> Seq<SyntaxView>
    decreases nodes,
{
    if nodes.len() == 0 {
        Seq::empty()
    } else {
        commands_in(nodes.last()) + commands_among(nodes.drop_last())
    }
}

/// The nodes with one more, which stands behind those that do not start after it.
pub open spec fn insert_by_start(nodes: Seq<SyntaxView>, n: SyntaxView) -> Seq<SyntaxView>
    decreases nodes.len(),
{
    if nodes.len() == 0 || nodes.last().start <= n.start {
        nodes.push(n)
    } else {
        insert_by_start(nodes.drop_last(), n).push(nodes.last())
    }
}

/// The nodes in the order in which they start in the script.
pub open spec fn in_source_order(nodes: Seq<SyntaxView>) -> Seq<SyntaxView>
    decreases nodes.len(),
{
    if nodes.len() == 0 {
        nodes
    } else {
        insert_by_start(in_source_order(nodes.drop_last()), nodes.last())
    }
}

/// Whether no node starts before one that stands before it.
pub open spec fn starts_ordered(nodes: Seq<SyntaxView>) -> bool {
    forall|i: int, j: int| 0 <= i < j < nodes.len() ==> (#[trigger] nodes[i]).start <= (#[trigger] nodes[j]).start
}

proof fn lemma_insert_by_start(nodes: Seq<SyntaxView>, n: SyntaxView)
    requires
        starts_ordered(nodes),
    ensures
        starts_ordered(insert_by_start(nodes, n)),
        insert_by_start(nodes, n).to_multiset() == nodes.to_multiset().insert(n),
        insert_by_start(nodes, n).len() == nodes.len() + 1,
        forall|i: int|
            0 <= i < insert_by_start(nodes, n).len() ==> insert_by_start(nodes, n)[i] == n || nodes.contains(
                #[trigger] insert_by_start(nodes, n)[i],
            ),
    decreases nodes.len(),
{
    broadcast use vstd::seq_lib::group_to_multiset_ensures;

    if nodes.len() == 0 || nodes.last().start <= n.start {
        let after = nodes.push(n);
        assert forall|i: int| 0 <= i < after.len() implies after[i] == n || nodes.contains(#[trigger] after[i]) by {
            if i < nodes.len() {
                assert(nodes[i] == after[i]);
            }
        }
        assert forall|i: int, j: int| 0 <= i < j < after.len() implies (#[trigger] after[i]).start <= (
        #[trigger] after[j]).start by {
            if j == nodes.len() && i < nodes.len() - 1 {
                assert(nodes[i].start <= nodes[nodes.len() - 1].start);
            }
        }
    } else {
        let front = nodes.drop_last();
        let last = nodes.last();
        let inner = insert_by_start(front, n);
        lemma_insert_by_start(front, n);
        let after = inner.push(last);
        assert(nodes[nodes.len() - 1] == last);
        assert forall|i: int| 0 <= i < after.len() implies after[i] == n || nodes.contains(#[trigger] after[i]) by {
            if i < inner.len() {
                assert(after[i] == inner[i]);
                if inner[i] != n {
                    let k = choose|k: int| 0 <= k < front.len() && front[k] == inner[i];
                    assert(nodes[k] == inner[i]);
                }
            }
        }
        assert forall|i: int, j: int| 0 <= i < j < after.len() implies (#[trigger] after[i]).start <= (
        #[trigger] after[j]).start by {
            assert(after[i] == inner[i]);
            if j == inner.len() {
                if inner[i] != n {
                    let k = choose|k: int| 0 <= k < front.len() && front[k] == inner[i];
                    assert(nodes[k] == inner[i]);
                }
            } else {
                assert(after[j] == inner[j]);
            }
        }
        assert(nodes =~= front.push(last));
        assert(after.to_multiset() =~= nodes.to_multiset().insert(n));
    }
}

/// The commands of a script come in the order in which they start in it, and
/// each of them comes.
pub proof fn law_commands_are_in_source_order(nodes: Seq<SyntaxView>)
    ensures
        starts_ordered(in_source_order(nodes)),
        in_source_order(nodes).to_multiset() == nodes.to_multiset(),
    decreases nodes.len(),
{
    broadcast use vstd::seq_lib::group_to_multiset_ensures;

    if nodes.len() > 0 {
        law_commands_are_in_source_order(nodes.drop_last());
        lemma_insert_by_start(in_source_order(nodes.drop_last()), nodes.last());
        assert(nodes =~= nodes.drop_last().push(nodes.last()));
    }
}

/// The text in double quotes that a node stands for, where nothing is expanded
/// in it.
pub open spec fn double_quoted(n: SyntaxView, src: Seq<char>) -> Option<Seq<char>> {
    if n.kind == "string"@ && forall|i: int|
        0 <= i < n.children.len() && (#[trigger] n.children[i]).named ==> n.children[i].kind == "string_content"@ {
        match syntax::text_of(n, src) {
            None => None,
            Some(raw) => match text::after_prefix(raw, "\""@) {
                None => None,
                Some(rest) => text::before_suffix(rest, "\""@),
            },
        }
    } else {
        None
    }
}

/// The text in single quotes that a node stands for.
pub open spec fn single_quoted(n: SyntaxView, src: Seq<char>) -> Option<Seq<char>> {
    if n.kind == "raw_string"@ {
        match syntax::text_of(n, src) {
            None => None,
            Some(raw) => match text::after_prefix(raw, "'"@) {
                None => None,
                Some(rest) => text::before_suffix(rest, "'"@),
            },
        }
    } else {
        None
    }
}

/// The text that a word, a number or a quoted text stands for.
pub open spec fn part_text(n: SyntaxView, src: Seq<char>) -> Option<Seq<char>> {
    if n.kind == "word"@ || n.kind == "number"@ {
        syntax::text_of(n, src)
    } else if n.kind == "string"@ {
        double_quoted(n, src)
    } else if n.kind == "raw_string"@ {
        single_quoted(n, src)
    } else {
        None
    }
}

/// The texts of the named ones of the nodes, one after the other.
pub open spec fn concatenated(nodes: Seq<SyntaxView>, src: Seq<char>) -> Option<Seq<char>>
    decreases nodes.len(),
{
    if nodes.len() == 0 {
        Some(Seq::empty())
    } else {
        match concatenated(nodes.drop_last(), src) {
            None => None,
            Some(before) => if !nodes.last().named {
                Some(before)
            } else {
                match part_text(nodes.last(), src) {
                    None => None,
                    Some(part) => Some(before + part),
                }
            },
        }
    }
}

/// The first of the nodes that the grammar names.
pub open spec fn first_named(nodes: Seq<SyntaxView>) -> Option<SyntaxView>
    decreases nodes.len(),
{
    if nodes.len() == 0 {
        None
    } else if nodes[0].named {
        Some(nodes[0])
    } else {
        first_named(nodes.skip(1))
    }
}

/// The word of a plain command that a node stands for.
pub open spec fn plain_word(n: SyntaxView, src: Seq<char>) -> Option<Seq<char>> {
    if n.kind == "command_name"@ {
        match first_named(n.children) {
            None => None,
            Some(word) => if word.kind == "word"@ {
                syntax::text_of(word, src)
            } else {
                None
            },
        }
    } else if n.kind == "concatenation"@ {
        match concatenated(n.children, src) {
            None => None,
            Some(word) => if word.len() == 0 {
                None
            } else {
                Some(word)
            },
        }
    } else {
        part_text(n, src)
    }
}

/// The words that the named ones of the nodes stand for.
pub open spec fn plain_words(nodes: Seq<SyntaxView>, src: Seq<char>) -> Option<Seq<Seq<char>>>
    decreases nodes.len(),
{
    if nodes.len() == 0 {
        Some(Seq::empty())
    } else {
        match plain_words(nodes.drop_last(), src) {
            None => None,
            Some(before) => if !nodes.last().named {
                Some(before)
            } else {
                match plain_word(nodes.last(), src) {
                    None => None,
                    Some(word) => Some(before.push(word)),
                }
            },
        }
    }
}

/// The words of each of the commands.
pub open spec fn words_of_all(commands: Seq<SyntaxView>, src: Seq<char>) -> Option<Seq<Seq<Seq<char>>>>
    decreases commands.len(),
{
    if commands.len() == 0 {
        Some(Seq::empty())
    } else {
        match (words_of_all(commands.drop_last(), src), plain_words(commands.last().children, src)) {
            (Some(before), Some(words)) => Some(before.push(words)),
            _ => None,
        }
    }
}

/// The plain commands of a script, in order, where it holds nothing else.
pub open spec fn plain_commands(root: SyntaxView, src: Seq<char>) -> Option<Seq<Seq<Seq<char>>>> {
    if root.has_error || !is_plain(root) {
        None
    } else {
        words_of_all(in_source_order(commands_in(root)), src)
    }
}

/// A script is made of plain commands only where every node in it may stand in one:
/// named nodes are programs, lists, pipelines, commands, their names, words, numbers,
/// quoted texts and what these are put together from, and the rest are the operators
/// `&&`, `||`, `;` and `|`, quotes, and blanks.
pub proof fn law_plain_nodes(n: SyntaxView)
    ensures
        is_plain(n) <==> is_plain_node(n) && forall|i: int| 0 <= i < n.children.len() ==> is_plain(#[trigger] n.children[i]),
        n.named ==> (is_plain_node(n) <==> n.kind == "program"@ || n.kind == "list"@ || n.kind == "pipeline"@ || n.kind
            == "command"@ || n.kind == "command_name"@ || n.kind == "word"@ || n.kind == "number"@ || n.kind == "string"@
            || n.kind == "string_content"@ || n.kind == "raw_string"@ || n.kind == "concatenation"@),
        !n.named ==> (is_plain_node(n) <==> n.kind == "&&"@ || n.kind == "||"@ || n.kind == ";"@ || n.kind == "|"@ || n.kind
            == "\""@ || n.kind == "'"@ || text::trimmed(n.kind).len() == 0),
{
    lemma_are_plain(n.children);
}

proof fn lemma_are_plain(nodes: Seq<SyntaxView>)
    ensures
        are_plain(nodes) <==> forall|i: int| 0 <= i < nodes.len() ==> is_plain(#[trigger] nodes[i]),
    decreases nodes.len(),
{
    reveal_with_fuel(are_plain, 2);
    if nodes.len() > 0 {
        let front = nodes.drop_last();
        lemma_are_plain(front);
        assert(nodes[nodes.len() - 1] == nodes.last());
        assert forall|i: int| 0 <= i < front.len() implies #[trigger] front[i] == nodes[i] by {}
        if forall|i: int| 0 <= i < nodes.len() ==> is_plain(#[trigger] nodes[i]) {
            assert forall|i: int| 0 <= i < front.len() implies is_plain(#[trigger] front[i]) by {
                assert(is_plain(nodes[i]));
            }
            assert(is_plain(nodes[nodes.len() - 1]));
        }
        if are_plain(nodes) {
            assert forall|i: int| 0 <= i < nodes.len() implies is_plain(#[trigger] nodes[i]) by {
                if i < front.len() {
                    assert(is_plain(front[i]));
                }
            }
        }
    }
}

/// The commands in a node are the node itself, where it is one, and the commands in
/// each of its children, and no others.
pub proof fn law_commands_in_a_node(n: SyntaxView, m: SyntaxView)
    ensures
        commands_in(n).contains(m) <==> (m == n && n.named && n.kind == "command"@) || exists|i: int|
            0 <= i < n.children.len() && commands_in(#[trigger] n.children[i]).contains(m),
{
    let own = if n.named && n.kind == "command"@ {
        seq![n]
    } else {
        Seq::empty()
    };
    lemma_commands_among(n.children, m);
    lemma_joined_contains(own, commands_among(n.children), m);
    if n.named && n.kind == "command"@ {
        assert(own[0] == n);
    }
}

proof fn lemma_joined_contains(a: Seq<SyntaxView>, b: Seq<SyntaxView>, m: SyntaxView)
    ensures
        (a + b).contains(m) <==> a.contains(m) || b.contains(m),
{
    let s = a + b;
    if a.contains(m) {
        let i = choose|i: int| 0 <= i < a.len() && a[i] == m;
        assert(s[i] == m);
    }
    if b.contains(m) {
        let i = choose|i: int| 0 <= i < b.len() && b[i] == m;
        assert(s[a.len() + i] == m);
    }
    if s.contains(m) {
        let i = choose|i: int| 0 <= i < s.len() && s[i] == m;
        if i < a.len() {
            assert(a[i] == m);
        } else {
            assert(b[i - a.len()] == m);
        }
    }
}

proof fn lemma_commands_among(nodes: Seq<SyntaxView>, m: SyntaxView)
    ensures
        commands_among(nodes).contains(m) <==> exists|i: int|
            0 <= i < nodes.len() && commands_in(#[trigger] nodes[i]).contains(m),
    decreases nodes.len(),
{
    reveal_with_fuel(commands_among, 2);
    if nodes.len() > 0 {
        let front = nodes.drop_last();
        let n = nodes.len() - 1;
        lemma_commands_among(front, m);
        lemma_joined_contains(commands_in(nodes.last()), commands_among(front), m);
        assert(nodes[n] == nodes.last());
        assert forall|i: int| 0 <= i < front.len() implies #[trigger] front[i] == nodes[i] by {}
        if commands_among(front).contains(m) {
            let i = choose|i: int| 0 <= i < front.len() && commands_in(#[trigger] front[i]).contains(m);
            assert(commands_in(nodes[i]).contains(m));
        }
        if exists|i: int| 0 <= i < nodes.len() && commands_in(#[trigger] nodes[i]).contains(m) {
            let i = choose|i: int| 0 <= i < nodes.len() && commands_in(#[trigger] nodes[i]).contains(m);
            if i < n {
                assert(commands_in(front[i]).contains(m));
            }
        }
    }
}

/// The nodes that the grammar names.
pub open spec fn named_ones(nodes: Seq<SyntaxView>) -> Seq<SyntaxView> {
    nodes.filter(|n: SyntaxView| n.named)
}

/// A plain command has one word for each of its named nodes, in order: none is left
/// out and none is added. It is none where one of them is no plain word.
pub proof fn law_every_node_is_a_word(nodes: Seq<SyntaxView>, src: Seq<char>)
    ensures
        match plain_words(nodes, src) {
            Some(words) => words.len() == named_ones(nodes).len() && forall|i: int|
                0 <= i < words.len() ==> plain_word(#[trigger] named_ones(nodes)[i], src) == Some(words[i]),
            None => exists|i: int|
                0 <= i < nodes.len() && (#[trigger] nodes[i]).named && plain_word(nodes[i], src) is None,
        },
    decreases nodes.len(),
{
    reveal(Seq::filter);
    if nodes.len() > 0 {
        let front = nodes.drop_last();
        let n = nodes.len() - 1;
        law_every_node_is_a_word(front, src);
        assert(nodes[n] == nodes.last());
        assert forall|i: int| 0 <= i < front.len() implies #[trigger] front[i] == nodes[i] by {}
        if plain_words(front, src) is None {
            let i = choose|i: int| 0 <= i < front.len() && (#[trigger] front[i]).named && plain_word(front[i], src) is None;
            assert(nodes[i].named && plain_word(nodes[i], src) is None);
        } else {
            let before = plain_words(front, src)->0;
            let kept = named_ones(front);
            if nodes.last().named {
                assert(named_ones(nodes) =~= kept.push(nodes.last()));
                if let Some(words) = plain_words(nodes, src) {
                    assert forall|i: int| 0 <= i < words.len() implies plain_word(#[trigger] named_ones(nodes)[i], src)
                        == Some(words[i]) by {
                        if i < kept.len() {
                            assert(named_ones(nodes)[i] == kept[i]);
                            assert(words[i] == before[i]);
                        }
                    }
                } else {
                    assert(nodes[n].named && plain_word(nodes[n], src) is None);
                }
            } else {
                assert(named_ones(nodes) =~= kept);
            }
        }
    }
}

/// What a node says as a word: a word or a number what it spans, a quoted text what
/// stands between its quotes, where in double quotes nothing is expanded, a command
/// name the word that it begins with, and a concatenation what its parts say. No
/// other node is a plain word.
pub proof fn law_plain_word(n: SyntaxView, src: Seq<char>)
    ensures
        n.kind == "word"@ || n.kind == "number"@ ==> plain_word(n, src) == syntax::text_of(n, src),
        n.kind == "raw_string"@ ==> (plain_word(n, src) matches Some(word) ==> syntax::text_of(n, src) == Some(
            seq!['\''] + word + seq!['\''],
        )),
        n.kind == "string"@ ==> (plain_word(n, src) matches Some(word) ==> syntax::text_of(n, src) == Some(
            seq!['"'] + word + seq!['"'],
        ) && forall|i: int|
            0 <= i < n.children.len() && (#[trigger] n.children[i]).named ==> n.children[i].kind == "string_content"@),
        n.kind == "command_name"@ ==> (plain_word(n, src) matches Some(word) ==> exists|i: int|
            0 <= i < n.children.len() && (#[trigger] n.children[i]).named && n.children[i].kind == "word"@
                && syntax::text_of(n.children[i], src) == Some(word) && forall|j: int|
                0 <= j < i ==> !(#[trigger] n.children[j]).named),
        n.kind == "concatenation"@ ==> (plain_word(n, src) matches Some(word) ==> word.len() > 0 && concatenated(
            n.children,
            src,
        ) == Some(word)),
        plain_word(n, src) is Some ==> n.kind == "word"@ || n.kind == "number"@ || n.kind == "raw_string"@ || n.kind
            == "string"@ || n.kind == "command_name"@ || n.kind == "concatenation"@,
{
    lemma_kinds_differ();
    reveal_strlit("\"");
    reveal_strlit("'");
    assert("'"@ =~= seq!['\'']);
    assert("\""@ =~= seq!['"']);
    if let Some(raw) = syntax::text_of(n, src) {
        lemma_unquoted(raw, "'"@);
        lemma_unquoted(raw, "\""@);
    }
    lemma_first_named(n.children);
}

/// A concatenation says what its named parts say, one after the other.
pub proof fn law_concatenation_says_its_parts(a: Seq<SyntaxView>, b: Seq<SyntaxView>, n: SyntaxView, src: Seq<char>)
    ensures
        concatenated(Seq::empty(), src) == Some(Seq::<char>::empty()),
        !n.named ==> concatenated(seq![n], src) == Some(Seq::<char>::empty()),
        n.named ==> concatenated(seq![n], src) == part_text(n, src),
        match (concatenated(a, src), concatenated(b, src)) {
            (Some(x), Some(y)) => concatenated(a + b, src) == Some(x + y),
            _ => concatenated(a + b, src) is None,
        },
        part_text(n, src) is Some ==> plain_word(n, src) == part_text(n, src),
    decreases b.len(),
{
    lemma_kinds_differ();
    assert(seq![n].drop_last() =~= Seq::empty());
    assert(concatenated(Seq::empty(), src) == Some(Seq::<char>::empty()));
    if let Some(part) = part_text(n, src) {
        assert(Seq::<char>::empty() + part =~= part);
    }
    assert(concatenated(seq![n], src) == (if !n.named {
        Some(Seq::<char>::empty())
    } else {
        part_text(n, src)
    }));
    if b.len() == 0 {
        assert(a + b =~= a);
        if let Some(x) = concatenated(a, src) {
            assert(x + Seq::<char>::empty() =~= x);
        }
    } else {
        law_concatenation_says_its_parts(a, b.drop_last(), n, src);
        assert((a + b).drop_last() =~= a + b.drop_last());
        if let (Some(x), Some(y)) = (concatenated(a, src), concatenated(b.drop_last(), src)) {
            if let Some(part) = part_text(b.last(), src) {
                assert(x + y + part =~= x + (y + part));
            }
        }
    }
}

proof fn lemma_unquoted(raw: Seq<char>, quote: Seq<char>)
    ensures
        text::after_prefix(raw, quote) matches Some(rest) ==> text::before_suffix(rest, quote) matches Some(word) ==> raw
            == quote + word + quote,
{
    if let Some(rest) = text::after_prefix(raw, quote) {
        if let Some(word) = text::before_suffix(rest, quote) {
            assert(raw =~= raw.take(quote.len() as int) + rest);
            assert(rest =~= word + rest.skip(rest.len() - quote.len()));
            assert(raw =~= quote + word + quote);
        }
    }
}

proof fn lemma_first_named(nodes: Seq<SyntaxView>)
    ensures
        match first_named(nodes) {
            Some(m) => exists|i: int|
                0 <= i < nodes.len() && (#[trigger] nodes[i]).named && nodes[i] == m && forall|j: int|
                    0 <= j < i ==> !(#[trigger] nodes[j]).named,
            None => forall|i: int| 0 <= i < nodes.len() ==> !(#[trigger] nodes[i]).named,
        },
    decreases nodes.len(),
{
    if nodes.len() > 0 {
        let rest = nodes.skip(1);
        lemma_first_named(rest);
        assert forall|i: int| 0 < i < nodes.len() implies #[trigger] nodes[i] == rest[i - 1] by {}
        if nodes[0].named {
            assert(nodes[0] == first_named(nodes)->0);
        } else if let Some(m) = first_named(rest) {
            let i = choose|i: int|
                0 <= i < rest.len() && (#[trigger] rest[i]).named && rest[i] == m && forall|j: int|
                    0 <= j < i ==> !(#[trigger] rest[j]).named;
            assert(nodes[i + 1].named && nodes[i + 1] == m);
            assert forall|j: int| 0 <= j < i + 1 implies !(#[trigger] nodes[j]).named by {
                if j > 0 {
                    assert(!rest[j - 1].named);
                }
            }
        }
    }
}

proof fn lemma_kinds_differ()
    ensures
        "word"@ != "number"@,
        "word"@ != "string"@,
        "word"@ != "raw_string"@,
        "word"@ != "command_name"@,
        "word"@ != "concatenation"@,
        "word"@ != "comment"@,
        "number"@ != "string"@,
        "number"@ != "raw_string"@,
        "number"@ != "command_name"@,
        "number"@ != "concatenation"@,
        "number"@ != "comment"@,
        "string"@ != "raw_string"@,
        "string"@ != "command_name"@,
        "string"@ != "concatenation"@,
        "raw_string"@ != "command_name"@,
        "raw_string"@ != "concatenation"@,
        "command_name"@ != "concatenation"@,
        "command_name"@ != "comment"@,
{
    reveal_strlit("word");
    reveal_strlit("number");
    reveal_strlit("string");
    reveal_strlit("raw_string");
    reveal_strlit("command_name");
    reveal_strlit("concatenation");
    reveal_strlit("comment");
    assert("word"@[0] == 'w');
    assert("number"@[0] == 'n');
    assert("string"@[0] == 's');
    assert("raw_string"@[0] == 'r');
    assert("command_name"@.len() == 12);
    assert("command_name"@[0] == 'c');
    assert("concatenation"@[0] == 'c');
    assert("concatenation"@.len() == 13);
    assert("comment"@.len() == 7);
    assert("comment"@[0] == 'c');
}

/// The plain commands of a script are those of its command nodes, each with its own
/// words, as many as there are and in the order in which they start. A script that is
/// wrong somewhere, or that holds anything else, has none.
pub proof fn law_every_command_is_read(root: SyntaxView, src: Seq<char>)
    ensures
        plain_commands(root, src) matches Some(commands) ==> {
            let nodes = in_source_order(commands_in(root));
            &&& !root.has_error
            &&& is_plain(root)
            &&& commands.len() == commands_in(root).len()
            &&& nodes.to_multiset() == commands_in(root).to_multiset()
            &&& starts_ordered(nodes)
            &&& forall|i: int|
                0 <= i < commands.len() ==> plain_words((#[trigger] nodes[i]).children, src) == Some(commands[i])
        },
        plain_commands(root, src) is None ==> root.has_error || !is_plain(root) || exists|i: int|
            0 <= i < in_source_order(commands_in(root)).len() && plain_words(
                (#[trigger] in_source_order(commands_in(root))[i]).children,
                src,
            ) is None,
{
    broadcast use vstd::seq_lib::group_to_multiset_ensures;

    let nodes = in_source_order(commands_in(root));
    law_commands_are_in_source_order(commands_in(root));
    assert(nodes.to_multiset().len() == nodes.len());
    assert(commands_in(root).to_multiset().len() == commands_in(root).len());
    lemma_words_of_all(nodes, src);
}

proof fn lemma_words_of_all(commands: Seq<SyntaxView>, src: Seq<char>)
    ensures
        match words_of_all(commands, src) {
            Some(all) => all.len() == commands.len() && forall|i: int|
                0 <= i < commands.len() ==> plain_words((#[trigger] commands[i]).children, src) == Some(all[i]),
            None => exists|i: int|
                0 <= i < commands.len() && plain_words((#[trigger] commands[i]).children, src) is None,
        },
    decreases commands.len(),
{
    if commands.len() > 0 {
        let front = commands.drop_last();
        let n = commands.len() - 1;
        lemma_words_of_all(front, src);
        assert(commands[n] == commands.last());
        assert forall|i: int| 0 <= i < front.len() implies #[trigger] front[i] == commands[i] by {}
        if words_of_all(front, src) is None {
            let i = choose|i: int| 0 <= i < front.len() && plain_words((#[trigger] front[i]).children, src) is None;
            assert(plain_words(commands[i].children, src) is None);
        } else if let Some(all) = words_of_all(commands, src) {
            let before = words_of_all(front, src)->0;
            assert forall|i: int| 0 <= i < commands.len() implies plain_words((#[trigger] commands[i]).children, src)
                == Some(all[i]) by {
                if i < n {
                    assert(front[i] == commands[i]);
                    assert(all[i] == before[i]);
                }
            }
        }
    }
}

fn plain_kind(kind: &str) -> (r: bool)
    ensures
        r == is_plain_kind(kind@),
{
    text::str_eq(kind, "program") || text::str_eq(kind, "list") || text::str_eq(kind, "pipeline") || text::str_eq(
        kind,
        "command",
    ) || text::str_eq(kind, "command_name") || text::str_eq(kind, "word") || text::str_eq(kind, "string")
        || text::str_eq(kind, "string_content") || text::str_eq(kind, "raw_string") || text::str_eq(kind, "number")
        || text::str_eq(kind, "concatenation")
}

fn plain_token(kind: &str) -> (r: bool)
    ensures
        r == is_plain_token(kind@),
{
    text::str_eq(kind, "&&") || text::str_eq(kind, "||") || text::str_eq(kind, ";") || text::str_eq(kind, "|")
        || text::str_eq(kind, "\"") || text::str_eq(kind, "'") || text::char_vec(text::trim(kind).as_str()).len() == 0
}

/// What the nodes are.
pub open spec fn ref_shapes(nodes: Seq<&ShellNode>) -> Seq<SyntaxView> {
    nodes.map_values(|n: &ShellNode| syntax::shape(*n))
}

fn collect_commands<'a>(n: &'a ShellNode, out: &mut Vec<&'a ShellNode>) -> (r: bool)
    ensures
        r == is_plain(n@),
        r ==> ref_shapes(final(out)@) == ref_shapes(old(out)@) + commands_in(n@),
    decreases *n,
{
    let ghost before = ref_shapes(out@);
    if n.named {
        if !plain_kind(n.kind.as_str()) {
            return false;
        }
        if text::str_eq(n.kind.as_str(), "command") {
            let ghost held = out@;
            out.push(n);
            assert(ref_shapes(out@) =~= ref_shapes(held).push(n@));
        }
    } else {
        if !plain_token(n.kind.as_str()) {
            return false;
        }
    }
    let ghost here = ref_shapes(out@);
    let ghost all = syntax::shapes(n.children@);
    let mut i: usize = n.children.len();
    proof {
        syntax::lemma_shapes(n.children@);
        assert(all.take(all.len() as int) =~= all);
        assert(here =~= before + (if n.named && n.kind@ == "command"@ {
            seq![n@]
        } else {
            Seq::empty()
        }));
        assert(here + commands_among(all.take(i as int)) =~= before + commands_in(n@));
    }
    while i > 0
        invariant
            i <= n.children@.len(),
            all == syntax::shapes(n.children@),
            all.len() == n.children@.len(),
            all == n@.children,
            is_plain_node(n@),
            forall|k: int| 0 <= k < n.children@.len() ==> #[trigger] all[k] == syntax::shape(n.children@[k]),
            are_plain(all.take(i as int)) == are_plain(all),
            ref_shapes(out@) + commands_among(all.take(i as int)) == before + commands_in(n@),
        decreases i,
    {
        let ghost held = ref_shapes(out@);
        proof {
            assert(all.take(i as int).drop_last() =~= all.take(i - 1));
            assert(all.take(i as int).last() == all[i - 1]);
            assert(decreases_to!(*n => n.children));
            assert(decreases_to!(n.children => n.children@));
            assert(decreases_to!(n.children@ => n.children@[i - 1]));
        }
        if !collect_commands(&n.children[i - 1], out) {
            return false;
        }
        assert(ref_shapes(out@) + commands_among(all.take(i - 1)) =~= held + commands_among(all.take(i as int)));
        i = i - 1;
    }
    assert(all.take(0) =~= Seq::empty());
    assert(ref_shapes(out@) =~= before + commands_in(n@));
    true
}

fn sort_by_start<'a>(nodes: &Vec<&'a ShellNode>) -> (r: Vec<&'a ShellNode>)
    ensures
        ref_shapes(r@) == in_source_order(ref_shapes(nodes@)),
{
    let ghost all = ref_shapes(nodes@);
    let mut out: Vec<&'a ShellNode> = Vec::new();
    let mut i: usize = 0;
    assert(all.take(0) =~= ref_shapes(out@));
    while i < nodes.len()
        invariant
            i <= nodes@.len(),
            all == ref_shapes(nodes@),
            ref_shapes(out@) == in_source_order(all.take(i as int)),
        decreases nodes@.len() - i,
    {
        let n = nodes[i];
        let ghost said = n@;
        let ghost sorted = ref_shapes(out@);
        proof {
            assert(all.take(i + 1).drop_last() =~= all.take(i as int));
            assert(all.take(i + 1).last() == said);
            assert(sorted.take(sorted.len() as int) =~= sorted);
            assert(insert_by_start(sorted, said) =~= insert_by_start(sorted.take(sorted.len() as int), said)
                + sorted.skip(sorted.len() as int));
        }
        let mut at: usize = out.len();
        while at > 0 && out[at - 1].start > n.start
            invariant
                at <= out@.len(),
                sorted == ref_shapes(out@),
                said == n@,
                insert_by_start(sorted, said) == insert_by_start(sorted.take(at as int), said) + sorted.skip(
                    at as int,
                ),
            decreases at,
        {
            proof {
                let part = sorted.take(at as int);
                assert(part.last() == syntax::shape(*out@[at - 1]));
                assert(part.drop_last() =~= sorted.take(at - 1));
                assert(insert_by_start(part, said) == insert_by_start(sorted.take(at - 1), said).push(part.last()));
                assert(insert_by_start(sorted.take(at - 1), said).push(part.last()) + sorted.skip(at as int)
                    =~= insert_by_start(sorted.take(at - 1), said) + sorted.skip(at - 1));
            }
            at = at - 1;
        }
        proof {
            let part = sorted.take(at as int);
            if at > 0 {
                assert(part.last() == syntax::shape(*out@[at - 1]));
            }
            assert(insert_by_start(part, said) == part.push(said));
        }
        out.insert(at, n);
        assert(ref_shapes(out@) =~= sorted.take(at as int).push(said) + sorted.skip(at as int));
        i = i + 1;
    }
    assert(all.take(all.len() as int) =~= all);
    out
}

fn parse_double_quoted_string(n: &ShellNode, src: &str) -> (r: Option<String>)
    ensures
        text::opt_view(r) == double_quoted(n@, src@),
{
    if !text::str_eq(n.kind.as_str(), "string") {
        return None;
    }
    let ghost all = n@.children;
    let mut i: usize = 0;
    proof {
        syntax::lemma_shapes(n.children@);
    }
    while i < n.children.len()
        invariant
            i <= n.children@.len(),
            all == n@.children,
            all.len() == n.children@.len(),
            forall|k: int| 0 <= k < n.children@.len() ==> #[trigger] all[k] == syntax::shape(n.children@[k]),
            forall|k: int| 0 <= k < i && (#[trigger] all[k]).named ==> all[k].kind == "string_content"@,
        decreases n.children@.len() - i,
    {
        if n.children[i].named && !text::str_eq(n.children[i].kind.as_str(), "string_content") {
            assert(all[i as int].named && all[i as int].kind != "string_content"@);
            return None;
        }
        i = i + 1;
    }
    match node_text(n, src) {
        None => None,
        Some(raw) => match text::strip_prefix(raw.as_str(), "\"") {
            None => None,
            Some(rest) => text::strip_suffix(rest.as_str(), "\""),
        },
    }
}

fn parse_raw_string(n: &ShellNode, src: &str) -> (r: Option<String>)
    ensures
        text::opt_view(r) == single_quoted(n@, src@),
{
    if !text::str_eq(n.kind.as_str(), "raw_string") {
        return None;
    }
    match node_text(n, src) {
        None => None,
        Some(raw) => match text::strip_prefix(raw.as_str(), "'") {
            None => None,
            Some(rest) => text::strip_suffix(rest.as_str(), "'"),
        },
    }
}

fn parse_part(n: &ShellNode, src: &str) -> (r: Option<String>)
    ensures
        text::opt_view(r) == part_text(n@, src@),
{
    let kind = n.kind.as_str();
    if text::str_eq(kind, "word") || text::str_eq(kind, "number") {
        node_text(n, src)
    } else if text::str_eq(kind, "string") {
        parse_double_quoted_string(n, src)
    } else if text::str_eq(kind, "raw_string") {
        parse_raw_string(n, src)
    } else {
        None
    }
}

proof fn lemma_no_concatenation(nodes: Seq<SyntaxView>, src: Seq<char>, n: int)
    requires
        0 <= n <= nodes.len(),
        concatenated(nodes.take(n), src) is None,
    ensures
        concatenated(nodes, src) is None,
    decreases nodes.len(),
{
    if n < nodes.len() {
        assert(nodes.drop_last().take(n) =~= nodes.take(n));
        lemma_no_concatenation(nodes.drop_last(), src, n);
    } else {
        assert(nodes.take(n) =~= nodes);
    }
}

fn concatenate(n: &ShellNode, src: &str) -> (r: Option<String>)
    ensures
        text::opt_view(r) == concatenated(n@.children, src@),
{
    let ghost all = n@.children;
    let mut out = String::new();
    let mut i: usize = 0;
    proof {
        syntax::lemma_shapes(n.children@);
        assert(all.take(0) =~= Seq::empty());
    }
    while i < n.children.len()
        invariant
            i <= n.children@.len(),
            all == n@.children,
            all.len() == n.children@.len(),
            forall|k: int| 0 <= k < n.children@.len() ==> #[trigger] all[k] == syntax::shape(n.children@[k]),
            concatenated(all.take(i as int), src@) == Some(out@),
        decreases n.children@.len() - i,
    {
        proof {
            assert(all.take(i + 1).drop_last() =~= all.take(i as int));
            assert(all.take(i + 1).last() == all[i as int]);
        }
        if n.children[i].named {
            match parse_part(&n.children[i], src) {
                Some(part) => {
                    out.push_str(part.as_str());
                },
                None => {
                    proof {
                        lemma_no_concatenation(all, src@, i + 1);
                    }
                    return None;
                },
            }
        }
        i = i + 1;
    }
    assert(all.take(all.len() as int) =~= all);
    Some(out)
}

fn named_child(n: &ShellNode) -> (r: Option<&ShellNode>)
    ensures
        match r {
            Some(child) => first_named(n@.children) == Some(child@),
            None => first_named(n@.children) is None,
        },
{
    let ghost all = n@.children;
    let mut i: usize = 0;
    proof {
        syntax::lemma_shapes(n.children@);
        assert(all.skip(0) =~= all);
    }
    while i < n.children.len()
        invariant
            i <= n.children@.len(),
            all == n@.children,
            all.len() == n.children@.len(),
            forall|k: int| 0 <= k < n.children@.len() ==> #[trigger] all[k] == syntax::shape(n.children@[k]),
            first_named(all) == first_named(all.skip(i as int)),
        decreases n.children@.len() - i,
    {
        assert(all.skip(i as int)[0] == all[i as int]);
        assert(all.skip(i as int).skip(1) =~= all.skip(i + 1));
        if n.children[i].named {
            return Some(&n.children[i]);
        }
        i = i + 1;
    }
    None
}

fn parse_plain_word(n: &ShellNode, src: &str) -> (r: Option<String>)
    ensures
        text::opt_view(r) == plain_word(n@, src@),
{
    let kind = n.kind.as_str();
    if text::str_eq(kind, "command_name") {
        match named_child(n) {
            None => None,
            Some(word) => if text::str_eq(word.kind.as_str(), "word") {
                node_text(word, src)
            } else {
                None
            },
        }
    } else if text::str_eq(kind, "concatenation") {
        match concatenate(n, src) {
            None => None,
            Some(word) => if text::char_vec(word.as_str()).len() == 0 {
                None
            } else {
                Some(word)
            },
        }
    } else {
        parse_part(n, src)
    }
}

proof fn lemma_no_words(nodes: Seq<SyntaxView>, src: Seq<char>, n: int)
    requires
        0 <= n <= nodes.len(),
        plain_words(nodes.take(n), src) is None,
    ensures
        plain_words(nodes, src) is None,
    decreases nodes.len(),
{
    if n < nodes.len() {
        assert(nodes.drop_last().take(n) =~= nodes.take(n));
        lemma_no_words(nodes.drop_last(), src, n);
    } else {
        assert(nodes.take(n) =~= nodes);
    }
}

/// The words, where there are any.
pub open spec fn opt_words(words: Option<Vec<String>>) -> Option<Seq<Seq<char>>> {
    match words {
        Some(w) => Some(text::views(w@)),
        None => None,
    }
}

fn parse_plain_command_from_node(n: &ShellNode, src: &str) -> (r: Option<Vec<String>>)
    ensures
        opt_words(r) == plain_words(n@.children, src@),
{
    let ghost all = n@.children;
    let mut words: Vec<String> = Vec::new();
    let mut i: usize = 0;
    proof {
        syntax::lemma_shapes(n.children@);
        assert(all.take(0) =~= Seq::empty());
        assert(text::views(words@) =~= Seq::empty());
    }
    while i < n.children.len()
        invariant
            i <= n.children@.len(),
            all == n@.children,
            all.len() == n.children@.len(),
            forall|k: int| 0 <= k < n.children@.len() ==> #[trigger] all[k] == syntax::shape(n.children@[k]),
            plain_words(all.take(i as int), src@) == Some(text::views(words@)),
        decreases n.children@.len() - i,
    {
        proof {
            assert(all.take(i + 1).drop_last() =~= all.take(i as int));
            assert(all.take(i + 1).last() == all[i as int]);
        }
        if n.children[i].named {
            match parse_plain_word(&n.children[i], src) {
                Some(word) => {
                    let ghost held = words@;
                    let ghost said = word@;
                    words.push(word);
                    assert(text::views(words@) =~= text::views(held).push(said));
                },
                None => {
                    proof {
                        lemma_no_words(all, src@, i + 1);
                    }
                    return None;
                },
            }
        }
        i = i + 1;
    }
    assert(all.take(all.len() as int) =~= all);
    Some(words)
}

proof fn lemma_not_all_words(commands: Seq<SyntaxView>, src: Seq<char>, n: int)
    requires
        0 <= n <= commands.len(),
        words_of_all(commands.take(n), src) is None,
    ensures
        words_of_all(commands, src) is None,
    decreases commands.len(),
{
    if n < commands.len() {
        assert(commands.drop_last().take(n) =~= commands.take(n));
        lemma_not_all_words(commands.drop_last(), src, n);
    } else {
        assert(commands.take(n) =~= commands);
    }
}

/// The words of the commands.
pub open spec fn command_views(commands: Seq<Vec<String>>) -> Seq<Seq<Seq<char>>> {
    commands.map_values(|c: Vec<String>| text::views(c@))
}

/// The words of the commands, where there are any.
pub open spec fn opt_commands(commands: Option<Vec<Vec<String>>>) -> Option<Seq<Seq<Seq<char>>>> {
    match commands {
        Some(c) => Some(command_views(c@)),
        None => None,
    }
}

/// The plain commands of a script, in order, where it holds nothing else: words
/// and quoted texts in which nothing is expanded, joined by `&&`, `||`, `;` and
/// `|`.
pub fn try_parse_word_only_commands_sequence(root: &ShellNode, src: &str) -> (r: Option<Vec<Vec<String>>>)
    ensures
        opt_commands(r) == plain_commands(root@, src@),
{
    if root.has_error {
        return None;
    }
    let mut found: Vec<&ShellNode> = Vec::new();
    assert(ref_shapes(found@) =~= Seq::empty());
    if !collect_commands(root, &mut found) {
        return None;
    }
    assert(ref_shapes(found@) =~= commands_in(root@));
    let nodes = sort_by_start(&found);
    let ghost all = ref_shapes(nodes@);
    let mut commands: Vec<Vec<String>> = Vec::new();
    let mut i: usize = 0;
    assert(all.take(0) =~= Seq::empty());
    assert(command_views(commands@) =~= Seq::empty());
    while i < nodes.len()
        invariant
            i <= nodes@.len(),
            all == ref_shapes(nodes@),
            words_of_all(all.take(i as int), src@) == Some(command_views(commands@)),
            plain_commands(root@, src@) == words_of_all(all, src@),
        decreases nodes@.len() - i,
    {
        proof {
            assert(all.take(i + 1).drop_last() =~= all.take(i as int));
            assert(all.take(i + 1).last() == syntax::shape(*nodes@[i as int]));
        }
        match parse_plain_command_from_node(nodes[i], src) {
            Some(words) => {
                let ghost held = commands@;
                let ghost said = text::views(words@);
                commands.push(words);
                assert(command_views(commands@) =~= command_views(held).push(said));
            },
            None => {
                proof {
                    lemma_not_all_words(all, src@, i + 1);
                }
                return None;
            },
        }
        i = i + 1;
    }
    assert(all.take(all.len() as int) =~= all);
    Some(commands)
}

/// The plain commands of the script that a call of a shell runs.
pub open spec fn plain_commands_of_call(command: Seq<Seq<char>>) -> Option<Seq<Seq<Seq<char>>>> {
    match script_of(command) {
        None => None,
        Some(script) => match syntax::bash_tree(script) {
            None => None,
            Some(root) => plain_commands(root, script),
        },
    }
}

/// The plain commands of the script that a call of a shell runs, where it holds
/// nothing else.
pub fn parse_shell_lc_plain_commands(command: &[String]) -> (r: Option<Vec<Vec<String>>>)
    ensures
        opt_commands(r) == plain_commands_of_call(text::views(command@)),
{
    match extract_bash_command(command) {
        None => None,
        Some((_, script)) => match try_parse_shell(script) {
            None => None,
            Some(root) => try_parse_word_only_commands_sequence(&root, script),
        },
    }
}

// ---------------------------------------------------------------------
// Commands that read a here-document
// ---------------------------------------------------------------------

/// Whether the node, or one in it that is reached over named nodes, is of the
/// kind.
pub open spec fn has_kind(n: SyntaxView, kind: Seq<char>) -> bool
    decreases n,
{
    n.kind == kind || have_kind(n.children, kind)
}

/// Whether a named one of the nodes, or one in it that is reached over named
/// nodes, is of the kind.
pub open spec fn have_kind(nodes: Seq<SyntaxView>, kind: Seq<char>) -> bool
    decreases nodes,
{
    nodes.len() > 0 && ((nodes.last().named && has_kind(nodes.last(), kind)) || have_kind(nodes.drop_last(), kind))
}

/// The commands that are reached over named nodes.
pub open spec fn named_commands(n: SyntaxView) -> Seq<SyntaxView>
    decreases n,
{
    (if n.kind == "command"@ {
        seq![n]
    } else {
        Seq::empty()
    }) + named_commands_among(n.children)
}

/// The commands that are reached over named ones of the nodes.
pub open spec fn named_commands_among(nodes: Seq<SyntaxView>) -> Seq<SyntaxView>
    decreases nodes,
{
    if nodes.len() == 0 {
        Seq::empty()
    } else {
        named_commands_among(nodes.drop_last()) + (if nodes.last().named {
            named_commands(nodes.last())
        } else {
            Seq::empty()
        })
    }
}

/// Whether the kind is of what hands a command its input and leaves its words
/// as they are.
pub open spec fn is_attachment(kind: Seq<char>) -> bool {
    ||| kind == "heredoc_body"@
    ||| kind == "simple_heredoc_body"@
    ||| kind == "heredoc_redirect"@
    ||| kind == "herestring_redirect"@
    ||| kind == "redirected_statement"@
}

/// Whether the node is a word or a number in which nothing is expanded.
pub open spec fn is_literal(n: SyntaxView) -> bool {
    (n.kind == "word"@ || n.kind == "number"@) && first_named(n.children) is None
}

/// What a node adds to the words of a command that reads a here-document: a
/// word, or nothing. Other nodes make it none.
pub open spec fn heredoc_word(n: SyntaxView, src: Seq<char>) -> Option<Option<Seq<char>>> {
    if n.kind == "command_name"@ {
        match first_named(n.children) {
            None => None,
            Some(word) => if is_literal(word) && syntax::text_of(word, src) is Some {
                Some(syntax::text_of(word, src))
            } else {
                None
            },
        }
    } else if n.kind == "word"@ || n.kind == "number"@ {
        if is_literal(n) && syntax::text_of(n, src) is Some {
            Some(syntax::text_of(n, src))
        } else {
            None
        }
    } else if n.kind == "comment"@ || is_attachment(n.kind) {
        Some(None)
    } else {
        None
    }
}

/// The words that the named ones of the nodes add.
pub open spec fn heredoc_words(nodes: Seq<SyntaxView>, src: Seq<char>) -> Option<Seq<Seq<char>>>
    decreases nodes.len(),
{
    if nodes.len() == 0 {
        Some(Seq::empty())
    } else {
        match heredoc_words(nodes.drop_last(), src) {
            None => None,
            Some(before) => if !nodes.last().named {
                Some(before)
            } else {
                match heredoc_word(nodes.last(), src) {
                    None => None,
                    Some(None) => Some(before),
                    Some(Some(word)) => Some(before.push(word)),
                }
            },
        }
    }
}

/// The words of the one command of a script that hands it a here-document and
/// redirects nothing else.
pub open spec fn heredoc_prefix(root: SyntaxView, src: Seq<char>) -> Option<Seq<Seq<char>>> {
    if root.has_error || !has_kind(root, "heredoc_redirect"@) || has_kind(root, "file_redirect"@) || named_commands(
        root,
    ).len() != 1 {
        None
    } else {
        match heredoc_words(named_commands(root)[0].children, src) {
            None => None,
            Some(words) => if words.len() == 0 {
                None
            } else {
                Some(words)
            },
        }
    }
}

/// Whether the node stands for a word of a command that reads a here-document.
pub open spec fn carries_word(n: SyntaxView) -> bool {
    n.named && (n.kind == "command_name"@ || n.kind == "word"@ || n.kind == "number"@)
}

/// Whether the node stands for the word: it is a word or a number that spans it, with
/// no named node in it, or the name of a command whose first named node is.
pub open spec fn stands_for(n: SyntaxView, src: Seq<char>, word: Seq<char>) -> bool {
    if n.kind == "command_name"@ {
        exists|i: int|
            0 <= i < n.children.len() && (#[trigger] n.children[i]).named && spans_literally(n.children[i], src, word)
                && forall|j: int| 0 <= j < i ==> !(#[trigger] n.children[j]).named
    } else {
        spans_literally(n, src, word)
    }
}

/// Whether the node is a word or a number with no named node in it, and spans the
/// word.
pub open spec fn spans_literally(n: SyntaxView, src: Seq<char>, word: Seq<char>) -> bool {
    &&& n.kind == "word"@ || n.kind == "number"@
    &&& forall|i: int| 0 <= i < n.children.len() ==> !(#[trigger] n.children[i]).named
    &&& syntax::text_of(n, src) == Some(word)
}

/// Whether the node hands a command its input or says nothing: here-documents, the
/// redirections to them, and comments.
pub open spec fn adds_nothing(n: SyntaxView) -> bool {
    n.kind == "comment"@ || n.kind == "heredoc_body"@ || n.kind == "simple_heredoc_body"@ || n.kind
        == "heredoc_redirect"@ || n.kind == "herestring_redirect"@ || n.kind == "redirected_statement"@
}

proof fn lemma_heredoc_word(n: SyntaxView, src: Seq<char>)
    requires
        n.named,
    ensures
        match heredoc_word(n, src) {
            Some(Some(word)) => carries_word(n) && stands_for(n, src, word),
            Some(None) => !carries_word(n) && adds_nothing(n),
            None => !adds_nothing(n) && !(carries_word(n) && exists|word: Seq<char>| #[trigger] stands_for(n, src, word)),
        },
{
    lemma_kinds_differ();
    lemma_attachments_carry_nothing();
    lemma_first_named(n.children);
    if n.kind == "command_name"@ {
        if let Some(m) = first_named(n.children) {
            let i = choose|i: int|
                0 <= i < n.children.len() && (#[trigger] n.children[i]).named && n.children[i] == m && forall|j: int|
                    0 <= j < i ==> !(#[trigger] n.children[j]).named;
            lemma_first_named(m.children);
            if let Some(Some(word)) = heredoc_word(n, src) {
                assert(n.children[i].named && spans_literally(n.children[i], src, word));
            }
            if exists|word: Seq<char>| #[trigger] stands_for(n, src, word) {
                let word = choose|word: Seq<char>| #[trigger] stands_for(n, src, word);
                let k = choose|k: int|
                    0 <= k < n.children.len() && (#[trigger] n.children[k]).named && spans_literally(
                        n.children[k],
                        src,
                        word,
                    ) && forall|j: int| 0 <= j < k ==> !(#[trigger] n.children[j]).named;
                assert(k == i);
                if first_named(m.children) is Some {
                    let c = choose|c: int| 0 <= c < m.children.len() && (#[trigger] m.children[c]).named;
                    assert(!m.children[c].named);
                }
                assert(is_literal(m));
            }
        }
    }
    if n.kind == "word"@ || n.kind == "number"@ {
        if exists|word: Seq<char>| #[trigger] stands_for(n, src, word) {
            let word = choose|word: Seq<char>| #[trigger] stands_for(n, src, word);
            assert(spans_literally(n, src, word));
            if first_named(n.children) is Some {
                let c = choose|c: int| 0 <= c < n.children.len() && (#[trigger] n.children[c]).named;
                assert(!n.children[c].named);
            }
        }
    }
}

proof fn lemma_attachments_carry_nothing()
    ensures
        forall|n: SyntaxView| #[trigger] adds_nothing(n) ==> n.kind != "command_name"@ && n.kind != "word"@ && n.kind
            != "number"@,
{
    reveal_strlit("word");
    reveal_strlit("number");
    reveal_strlit("command_name");
    reveal_strlit("comment");
    reveal_strlit("heredoc_body");
    reveal_strlit("simple_heredoc_body");
    reveal_strlit("heredoc_redirect");
    reveal_strlit("herestring_redirect");
    reveal_strlit("redirected_statement");
    assert("word"@[0] == 'w');
    assert("number"@[0] == 'n');
    assert("command_name"@[0] == 'c');
    assert("command_name"@.len() == 12);
    assert("comment"@.len() == 7);
    assert("comment"@[0] == 'c');
    assert("heredoc_body"@[0] == 'h');
    assert("simple_heredoc_body"@[0] == 's');
    assert("heredoc_redirect"@[0] == 'h');
    assert("herestring_redirect"@[0] == 'h');
    assert("redirected_statement"@[0] == 'r');
}

/// A command that reads a here-document has one word for its name and one for each
/// word and number behind it, in order, and each is the text that its node spans in
/// the script: no argument is left out. There are none where another named node
/// stands among them that does more than hand the command its input.
pub proof fn law_no_argument_is_left_out(nodes: Seq<SyntaxView>, src: Seq<char>)
    ensures
        match heredoc_words(nodes, src) {
            Some(words) => {
                let kept = nodes.filter(|n: SyntaxView| carries_word(n));
                &&& words.len() == kept.len()
                &&& forall|i: int| 0 <= i < kept.len() ==> stands_for(#[trigger] kept[i], src, words[i])
                &&& forall|i: int|
                    0 <= i < nodes.len() && (#[trigger] nodes[i]).named ==> carries_word(nodes[i]) || adds_nothing(nodes[i])
            },
            None => exists|i: int|
                0 <= i < nodes.len() && (#[trigger] nodes[i]).named && !adds_nothing(nodes[i]) && !(carries_word(nodes[i])
                    && exists|word: Seq<char>| #[trigger] stands_for(nodes[i], src, word)),
        },
    decreases nodes.len(),
{
    reveal(Seq::filter);
    let keep = |n: SyntaxView| carries_word(n);
    if nodes.len() > 0 {
        let front = nodes.drop_last();
        let n = nodes.len() - 1;
        let last = nodes.last();
        law_no_argument_is_left_out(front, src);
        if last.named {
            lemma_heredoc_word(last, src);
        }
        assert(nodes[n] == last);
        assert forall|i: int| 0 <= i < front.len() implies #[trigger] front[i] == nodes[i] by {}
        if heredoc_words(front, src) is None {
            let i = choose|i: int|
                0 <= i < front.len() && (#[trigger] front[i]).named && !adds_nothing(front[i]) && !(carries_word(front[i])
                    && exists|word: Seq<char>| #[trigger] stands_for(front[i], src, word));
            assert(nodes[i] == front[i]);
        } else {
            let before = heredoc_words(front, src)->0;
            let kept = front.filter(keep);
            if let Some(words) = heredoc_words(nodes, src) {
                let after = nodes.filter(keep);
                if carries_word(last) {
                    assert(after =~= kept.push(last));
                } else {
                    assert(after =~= kept);
                }
                assert forall|i: int| 0 <= i < after.len() implies stands_for(#[trigger] after[i], src, words[i]) by {
                    if i < kept.len() {
                        assert(after[i] == kept[i]);
                        assert(words[i] == before[i]);
                        assert(stands_for(kept[i], src, before[i]));
                    }
                }
                assert forall|i: int| 0 <= i < nodes.len() && (#[trigger] nodes[i]).named implies carries_word(nodes[i])
                    || adds_nothing(nodes[i]) by {
                    if i < n {
                        assert(front[i] == nodes[i]);
                    }
                }
            } else {
                assert(nodes[n].named);
            }
        }
    }
}

/// A script hands a here-document to one command exactly where it is right, a
/// redirection to a here-document stands in it and none to a file, and there is
/// exactly one command in it that has words.
pub proof fn law_here_document_is_handed_to_one_command(root: SyntaxView, src: Seq<char>)
    ensures
        heredoc_prefix(root, src) is Some <==> {
            &&& !root.has_error
            &&& has_kind(root, "heredoc_redirect"@)
            &&& !has_kind(root, "file_redirect"@)
            &&& named_commands(root).len() == 1
            &&& heredoc_words(named_commands(root)[0].children, src) matches Some(words)
            &&& words.len() > 0
        },
        heredoc_prefix(root, src) matches Some(words) ==> heredoc_words(named_commands(root)[0].children, src) == Some(
            words,
        ) && words.len() > 0,
{
}

/// A kind stands in a node where the node is of it or where it stands in a named
/// child, and nowhere else. The same holds of commands.
pub proof fn law_kinds_are_looked_for_in_named_nodes(n: SyntaxView, kind: Seq<char>, m: SyntaxView)
    ensures
        has_kind(n, kind) <==> n.kind == kind || exists|i: int|
            0 <= i < n.children.len() && (#[trigger] n.children[i]).named && has_kind(n.children[i], kind),
        named_commands(n).contains(m) <==> (m == n && n.kind == "command"@) || exists|i: int|
            0 <= i < n.children.len() && (#[trigger] n.children[i]).named && named_commands(n.children[i]).contains(m),
{
    lemma_have_kind(n.children, kind);
    let own = if n.kind == "command"@ {
        seq![n]
    } else {
        Seq::empty()
    };
    lemma_named_commands_among(n.children, m);
    lemma_joined_contains(own, named_commands_among(n.children), m);
    if n.kind == "command"@ {
        assert(own[0] == n);
    }
}

proof fn lemma_have_kind(nodes: Seq<SyntaxView>, kind: Seq<char>)
    ensures
        have_kind(nodes, kind) <==> exists|i: int|
            0 <= i < nodes.len() && (#[trigger] nodes[i]).named && has_kind(nodes[i], kind),
    decreases nodes.len(),
{
    reveal_with_fuel(have_kind, 2);
    if nodes.len() > 0 {
        let front = nodes.drop_last();
        let n = nodes.len() - 1;
        lemma_have_kind(front, kind);
        assert(nodes[n] == nodes.last());
        if have_kind(front, kind) {
            let i = choose|i: int| 0 <= i < front.len() && (#[trigger] front[i]).named && has_kind(front[i], kind);
            assert(nodes[i] == front[i]);
        }
        if exists|i: int| 0 <= i < nodes.len() && (#[trigger] nodes[i]).named && has_kind(nodes[i], kind) {
            let i = choose|i: int| 0 <= i < nodes.len() && (#[trigger] nodes[i]).named && has_kind(nodes[i], kind);
            if i < n {
                assert(front[i] == nodes[i]);
            }
        }
    }
}

proof fn lemma_named_commands_among(nodes: Seq<SyntaxView>, m: SyntaxView)
    ensures
        named_commands_among(nodes).contains(m) <==> exists|i: int|
            0 <= i < nodes.len() && (#[trigger] nodes[i]).named && named_commands(nodes[i]).contains(m),
    decreases nodes.len(),
{
    reveal_with_fuel(named_commands_among, 2);
    if nodes.len() > 0 {
        let front = nodes.drop_last();
        let n = nodes.len() - 1;
        let own = if nodes.last().named {
            named_commands(nodes.last())
        } else {
            Seq::empty()
        };
        lemma_named_commands_among(front, m);
        lemma_joined_contains(named_commands_among(front), own, m);
        assert(nodes[n] == nodes.last());
        if named_commands_among(front).contains(m) {
            let i = choose|i: int|
                0 <= i < front.len() && (#[trigger] front[i]).named && named_commands(front[i]).contains(m);
            assert(nodes[i] == front[i]);
        }
        if exists|i: int| 0 <= i < nodes.len() && (#[trigger] nodes[i]).named && named_commands(nodes[i]).contains(m) {
            let i = choose|i: int|
                0 <= i < nodes.len() && (#[trigger] nodes[i]).named && named_commands(nodes[i]).contains(m);
            if i < n {
                assert(front[i] == nodes[i]);
            }
        }
    }
}

fn has_named_descendant_kind(n: &ShellNode, kind: &str) -> (r: bool)
    ensures
        r == has_kind(n@, kind@),
    decreases *n,
{
    if text::str_eq(n.kind.as_str(), kind) {
        return true;
    }
    let ghost all = n@.children;
    let mut i: usize = n.children.len();
    proof {
        syntax::lemma_shapes(n.children@);
        assert(all.take(all.len() as int) =~= all);
    }
    while i > 0
        invariant
            i <= n.children@.len(),
            all == n@.children,
            all.len() == n.children@.len(),
            forall|k: int| 0 <= k < n.children@.len() ==> #[trigger] all[k] == syntax::shape(n.children@[k]),
            has_kind(n@, kind@) == have_kind(all.take(i as int), kind@),
        decreases i,
    {
        proof {
            assert(all.take(i as int).drop_last() =~= all.take(i - 1));
            assert(all.take(i as int).last() == all[i - 1]);
            assert(decreases_to!(*n => n.children));
            assert(decreases_to!(n.children => n.children@));
            assert(decreases_to!(n.children@ => n.children@[i - 1]));
        }
        if n.children[i - 1].named && has_named_descendant_kind(&n.children[i - 1], kind) {
            return true;
        }
        i = i - 1;
    }
    false
}

fn collect_named_commands<'a>(n: &'a ShellNode, out: &mut Vec<&'a ShellNode>)
    ensures
        ref_shapes(final(out)@) == ref_shapes(old(out)@) + named_commands(n@),
    decreases *n,
{
    let ghost before = ref_shapes(out@);
    if text::str_eq(n.kind.as_str(), "command") {
        let ghost held = out@;
        out.push(n);
        assert(ref_shapes(out@) =~= ref_shapes(held).push(n@));
    }
    let ghost here = ref_shapes(out@);
    let ghost all = n@.children;
    let mut i: usize = 0;
    proof {
        syntax::lemma_shapes(n.children@);
        assert(all.take(0) =~= Seq::empty());
        assert(here =~= before + (if n.kind@ == "command"@ {
            seq![n@]
        } else {
            Seq::empty()
        }));
        assert(here + named_commands_among(all.take(0)) =~= here);
    }
    while i < n.children.len()
        invariant
            i <= n.children@.len(),
            all == n@.children,
            all.len() == n.children@.len(),
            forall|k: int| 0 <= k < n.children@.len() ==> #[trigger] all[k] == syntax::shape(n.children@[k]),
            ref_shapes(out@) == here + named_commands_among(all.take(i as int)),
        decreases n.children@.len() - i,
    {
        proof {
            assert(all.take(i + 1).drop_last() =~= all.take(i as int));
            assert(all.take(i + 1).last() == all[i as int]);
            assert(decreases_to!(*n => n.children));
            assert(decreases_to!(n.children => n.children@));
            assert(decreases_to!(n.children@ => n.children@[i as int]));
        }
        if n.children[i].named {
            collect_named_commands(&n.children[i], out);
        }
        assert(ref_shapes(out@) =~= here + named_commands_among(all.take(i + 1)));
        i = i + 1;
    }
    assert(all.take(all.len() as int) =~= all);
    assert(ref_shapes(out@) =~= before + named_commands(n@));
}

fn is_allowed_heredoc_attachment_kind(kind: &str) -> (r: bool)
    ensures
        r == is_attachment(kind@),
{
    text::str_eq(kind, "heredoc_body") || text::str_eq(kind, "simple_heredoc_body") || text::str_eq(
        kind,
        "heredoc_redirect",
    ) || text::str_eq(kind, "herestring_redirect") || text::str_eq(kind, "redirected_statement")
}

fn is_literal_word_or_number(n: &ShellNode) -> (r: bool)
    ensures
        r == is_literal(n@),
{
    (text::str_eq(n.kind.as_str(), "word") || text::str_eq(n.kind.as_str(), "number")) && named_child(n).is_none()
}

fn parse_heredoc_word(n: &ShellNode, src: &str) -> (r: Option<Option<String>>)
    ensures
        match r {
            Some(word) => heredoc_word(n@, src@) == Some(text::opt_view(word)),
            None => heredoc_word(n@, src@) is None,
        },
{
    let kind = n.kind.as_str();
    if text::str_eq(kind, "command_name") {
        match named_child(n) {
            None => None,
            Some(word) => if is_literal_word_or_number(word) {
                match node_text(word, src) {
                    Some(word) => Some(Some(word)),
                    None => None,
                }
            } else {
                None
            },
        }
    } else if text::str_eq(kind, "word") || text::str_eq(kind, "number") {
        if is_literal_word_or_number(n) {
            match node_text(n, src) {
                Some(word) => Some(Some(word)),
                None => None,
            }
        } else {
            None
        }
    } else if text::str_eq(kind, "comment") || is_allowed_heredoc_attachment_kind(kind) {
        Some(None)
    } else {
        None
    }
}

proof fn lemma_no_heredoc_words(nodes: Seq<SyntaxView>, src: Seq<char>, n: int)
    requires
        0 <= n <= nodes.len(),
        heredoc_words(nodes.take(n), src) is None,
    ensures
        heredoc_words(nodes, src) is None,
    decreases nodes.len(),
{
    if n < nodes.len() {
        assert(nodes.drop_last().take(n) =~= nodes.take(n));
        lemma_no_heredoc_words(nodes.drop_last(), src, n);
    } else {
        assert(nodes.take(n) =~= nodes);
    }
}

fn parse_heredoc_command_words(n: &ShellNode, src: &str) -> (r: Option<Vec<String>>)
    ensures
        opt_words(r) == (match heredoc_words(n@.children, src@) {
            None => None::<Seq<Seq<char>>>,
            Some(words) => if words.len() == 0 {
                None
            } else {
                Some(words)
            },
        }),
{
    let ghost all = n@.children;
    let mut words: Vec<String> = Vec::new();
    let mut i: usize = 0;
    proof {
        syntax::lemma_shapes(n.children@);
        assert(all.take(0) =~= Seq::empty());
        assert(text::views(words@) =~= Seq::empty());
    }
    while i < n.children.len()
        invariant
            i <= n.children@.len(),
            all == n@.children,
            all.len() == n.children@.len(),
            forall|k: int| 0 <= k < n.children@.len() ==> #[trigger] all[k] == syntax::shape(n.children@[k]),
            heredoc_words(all.take(i as int), src@) == Some(text::views(words@)),
        decreases n.children@.len() - i,
    {
        proof {
            assert(all.take(i + 1).drop_last() =~= all.take(i as int));
            assert(all.take(i + 1).last() == all[i as int]);
        }
        if n.children[i].named {
            match parse_heredoc_word(&n.children[i], src) {
                Some(Some(word)) => {
                    let ghost held = words@;
                    let ghost said = word@;
                    words.push(word);
                    assert(text::views(words@) =~= text::views(held).push(said));
                },
                Some(None) => {},
                None => {
                    proof {
                        lemma_no_heredoc_words(all, src@, i + 1);
                    }
                    return None;
                },
            }
        }
        i = i + 1;
    }
    assert(all.take(all.len() as int) =~= all);
    assert(text::views(words@).len() == words@.len());
    if words.len() == 0 {
        None
    } else {
        Some(words)
    }
}

/// The words of the one command of a script that hands it a here-document and
/// redirects nothing else.
pub fn single_command_prefix(root: &ShellNode, src: &str) -> (r: Option<Vec<String>>)
    ensures
        opt_words(r) == heredoc_prefix(root@, src@),
{
    if root.has_error || !has_named_descendant_kind(root, "heredoc_redirect") || has_named_descendant_kind(
        root,
        "file_redirect",
    ) {
        return None;
    }
    let mut found: Vec<&ShellNode> = Vec::new();
    assert(ref_shapes(found@) =~= Seq::empty());
    collect_named_commands(root, &mut found);
    assert(ref_shapes(found@) =~= named_commands(root@));
    assert(found@.len() == named_commands(root@).len());
    if found.len() != 1 {
        return None;
    }
    assert(named_commands(root@)[0] == syntax::shape(*found@[0]));
    parse_heredoc_command_words(found[0], src)
}

/// The words of the one command of the script that a call of a shell runs, where
/// that hands it a here-document and redirects nothing else.
pub open spec fn heredoc_prefix_of_call(command: Seq<Seq<char>>) -> Option<Seq<Seq<char>>> {
    match script_of(command) {
        None => None,
        Some(script) => match syntax::bash_tree(script) {
            None => None,
            Some(root) => heredoc_prefix(root, script),
        },
    }
}

/// The words of the one command of the script that a call of a shell runs, where
/// that hands it a here-document and redirects nothing else.
pub fn parse_shell_lc_single_command_prefix(command: &[String]) -> (r: Option<Vec<String>>)
    ensures
        opt_words(r) == heredoc_prefix_of_call(text::views(command@)),
{
    match extract_bash_command(command) {
        None => None,
        Some((_, script)) => match try_parse_shell(script) {
            None => None,
            Some(root) => single_command_prefix(&root, script),
        },
    }
}

} // verus!
