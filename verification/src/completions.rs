//! Shell completion scripts, generated from one list of commands and options.

use crate::text::{self, CharClass};
use vstd::prelude::*;
use vstd::string::*;

verus! {

/// A command, with the description shown during completion.
#[derive(Debug, Clone, Copy)]
pub struct Command {
    pub name: &'static str,
    pub description: &'static str,
}

/// The operands of a command, so that it offers them rather than filenames.
#[derive(Debug)]
pub struct Operands {
    pub command: &'static str,
    pub operands: Vec<String>,
}

pub open spec fn command_list() -> Seq<(Seq<char>, Seq<char>)> {
    seq![
        ("check"@, "inspect core and plugins; never mutate"@),
        ("doctor"@, "check this tool's own environment"@),
        ("plan"@, "show the policy decision for every target"@),
        ("apply"@, "execute safe UPDATE decisions"@),
        ("update"@, "alias for apply"@),
        ("fleet"@, "report drift across configured SSH hosts"@),
        ("search"@, "search the Herdr plugin marketplace"@),
        ("install"@, "install a marketplace plugin"@),
        ("store"@, "run the plugin store inside a Herdr pane"@),
        ("open-store"@, "open the plugin store popup"@),
        ("sync"@, "plan/apply/export desired state across hosts"@),
        ("schedule"@, "run/install/status/remove background checks"@),
        ("history"@, "print the update/rollback audit log"@),
        ("rollback"@, "pin plugin(s) to their pre-update revision"@),
        ("resume"@, "return rolled-back plugin(s) to their ref"@),
        ("startup"@, "startup hook"@),
        ("completions"@, "print a shell completion script"@),
        ("version"@, "print this tool's version"@),
    ]
}

pub open spec fn option_list() -> Seq<Seq<char>> {
    seq![
        "--json"@,
        "--timeout"@,
        "--config"@,
        "--only"@,
        "--hosts"@,
        "--core-only"@,
        "--plugins-only"@,
        "--allow-protocol-change"@,
        "--sort"@,
        "--limit"@,
        "--since"@,
        "--refresh"@,
        "--yes"@,
        "--help"@,
    ]
}

pub open spec fn operand_list() -> Seq<(Seq<char>, Seq<Seq<char>>)> {
    seq![
        ("sync"@, seq!["plan"@, "apply"@, "export"@]),
        ("schedule"@, seq!["run"@, "install"@, "status"@, "remove"@]),
        ("completions"@, seq!["bash"@, "zsh"@, "fish"@]),
    ]
}

/// Every command.
pub fn commands() -> (r: Vec<Command>)
    ensures
        r@.len() == command_list().len(),
        forall|i: int|
            0 <= i < r@.len() ==> ((#[trigger] r@[i]).name@, r@[i].description@)
                == command_list()[i],
{
    vec![
        Command { name: "check", description: "inspect core and plugins; never mutate" },
        Command { name: "doctor", description: "check this tool's own environment" },
        Command { name: "plan", description: "show the policy decision for every target" },
        Command { name: "apply", description: "execute safe UPDATE decisions" },
        Command { name: "update", description: "alias for apply" },
        Command { name: "fleet", description: "report drift across configured SSH hosts" },
        Command { name: "search", description: "search the Herdr plugin marketplace" },
        Command { name: "install", description: "install a marketplace plugin" },
        Command { name: "store", description: "run the plugin store inside a Herdr pane" },
        Command { name: "open-store", description: "open the plugin store popup" },
        Command { name: "sync", description: "plan/apply/export desired state across hosts" },
        Command { name: "schedule", description: "run/install/status/remove background checks" },
        Command { name: "history", description: "print the update/rollback audit log" },
        Command { name: "rollback", description: "pin plugin(s) to their pre-update revision" },
        Command { name: "resume", description: "return rolled-back plugin(s) to their ref" },
        Command { name: "startup", description: "startup hook" },
        Command { name: "completions", description: "print a shell completion script" },
        Command { name: "version", description: "print this tool's version" },
    ]
}

/// Every option.
pub fn options() -> (r: Vec<String>)
    ensures
        text::texts(r@) == option_list(),
{
    let r = vec![
        "--json".to_string(),
        "--timeout".to_string(),
        "--config".to_string(),
        "--only".to_string(),
        "--hosts".to_string(),
        "--core-only".to_string(),
        "--plugins-only".to_string(),
        "--allow-protocol-change".to_string(),
        "--sort".to_string(),
        "--limit".to_string(),
        "--since".to_string(),
        "--refresh".to_string(),
        "--yes".to_string(),
        "--help".to_string(),
    ];
    assert(text::texts(r@) =~= option_list());
    r
}

pub open spec fn operand_facts(o: Operands) -> (Seq<char>, Seq<Seq<char>>) {
    (o.command@, text::texts(o.operands@))
}

fn operand_groups() -> (r: Vec<Operands>)
    ensures
        r@.len() == operand_list().len(),
        forall|i: int| 0 <= i < r@.len() ==> operand_facts(#[trigger] r@[i]) == operand_list()[i],
{
    let sync = vec!["plan".to_string(), "apply".to_string(), "export".to_string()];
    assert(text::texts(sync@) =~= operand_list()[0].1);
    let schedule = vec![
        "run".to_string(),
        "install".to_string(),
        "status".to_string(),
        "remove".to_string(),
    ];
    assert(text::texts(schedule@) =~= operand_list()[1].1);
    let shells = vec!["bash".to_string(), "zsh".to_string(), "fish".to_string()];
    assert(text::texts(shells@) =~= operand_list()[2].1);
    vec![
        Operands { command: "sync", operands: sync },
        Operands { command: "schedule", operands: schedule },
        Operands { command: "completions", operands: shells },
    ]
}

/// The names of the commands, separated by blanks.
pub open spec fn names_text() -> Seq<char> {
    text::joined(Seq::new(command_list().len(), |i: int| command_list()[i].0), " "@)
}

fn command_names() -> (r: String)
    ensures
        r@ == names_text(),
{
    let all = commands();
    let mut names: Vec<String> = Vec::new();
    let mut i: usize = 0;
    while i < all.len()
        invariant
            i <= all.len(),
            all@.len() == command_list().len(),
            forall|k: int|
                0 <= k < all@.len() ==> ((#[trigger] all@[k]).name@, all@[k].description@)
                    == command_list()[k],
            names@.len() == i,
            forall|k: int| 0 <= k < i ==> (#[trigger] names@[k])@ == command_list()[k].0,
        decreases all.len() - i,
    {
        names.push(all[i].name.to_string());
        i = i + 1;
    }
    assert(text::texts(names@) =~= Seq::new(
        command_list().len(),
        |k: int| command_list()[k].0,
    ));
    text::join(&names, " ")
}

// ---------------------------------------------------------------------------
// bash

pub open spec fn bash_case(group: (Seq<char>, Seq<Seq<char>>)) -> Seq<char> {
    "        "@ + group.0 + ") COMPREPLY=( $(compgen -W \""@ + text::joined(group.1, " "@)
        + "\" -- \"$cur\") ); return 0 ;;\n"@
}

/// The pieces of the bash script. An option that takes a value completes to
/// nothing rather than to commands.
pub open spec fn bash_pieces() -> Seq<Seq<char>> {
    seq![
        "# herdr-updater bash completion\n# eval \"$(herdr-updater completions bash)\"\n_herdr_updater() {\n    local cur prev\n    cur=\"${COMP_WORDS[COMP_CWORD]}\"\n    prev=\"${COMP_WORDS[COMP_CWORD-1]}\"\n"@,
        "    case \"$prev\" in\n        --config) COMPREPLY=( $(compgen -f -- \"$cur\") ); return 0 ;;\n        --timeout|--only|--hosts|--limit|--since) COMPREPLY=(); return 0 ;;\n        --sort) COMPREPLY=( $(compgen -W \"relevance stars trending recent name\" -- \"$cur\") ); return 0 ;;\n"@,
    ] + Seq::new(operand_list().len(), |i: int| bash_case(operand_list()[i])) + seq![
        "    esac\n"@,
        "    if [[ \"$cur\" == -* ]]; then\n        COMPREPLY=( $(compgen -W \""@ + text::joined(
            option_list(),
            " "@,
        ) + "\" -- \"$cur\") )\n    else\n        COMPREPLY=( $(compgen -W \""@ + names_text()
            + "\" -- \"$cur\") )\n    fi\n}\ncomplete -F _herdr_updater herdr-updater\n"@,
    ]
}

fn bash_group(group: &Operands) -> (r: String)
    ensures
        r@ == bash_case(operand_facts(*group)),
{
    "        ".to_string().concat(group.command).concat(") COMPREPLY=( $(compgen -W \"").concat(
        text::join(&group.operands, " ").as_str(),
    ).concat("\" -- \"$cur\") ); return 0 ;;\n")
}

pub fn bash() -> (r: String)
    ensures
        r@ == text::joined(bash_pieces(), ""@),
{
    let mut pieces: Vec<String> = Vec::new();
    pieces.push(
        "# herdr-updater bash completion\n# eval \"$(herdr-updater completions bash)\"\n_herdr_updater() {\n    local cur prev\n    cur=\"${COMP_WORDS[COMP_CWORD]}\"\n    prev=\"${COMP_WORDS[COMP_CWORD-1]}\"\n".to_string(),
    );
    pieces.push(
        "    case \"$prev\" in\n        --config) COMPREPLY=( $(compgen -f -- \"$cur\") ); return 0 ;;\n        --timeout|--only|--hosts|--limit|--since) COMPREPLY=(); return 0 ;;\n        --sort) COMPREPLY=( $(compgen -W \"relevance stars trending recent name\" -- \"$cur\") ); return 0 ;;\n".to_string(),
    );
    let groups = operand_groups();
    pieces.push(bash_group(&groups[0]));
    pieces.push(bash_group(&groups[1]));
    pieces.push(bash_group(&groups[2]));
    pieces.push("    esac\n".to_string());
    pieces.push(
        "    if [[ \"$cur\" == -* ]]; then\n        COMPREPLY=( $(compgen -W \"".to_string().concat(
            text::join(&options(), " ").as_str(),
        ).concat(
            "\" -- \"$cur\") )\n    else\n        COMPREPLY=( $(compgen -W \"",
        ).concat(command_names().as_str()).concat(
            "\" -- \"$cur\") )\n    fi\n}\ncomplete -F _herdr_updater herdr-updater\n",
        ),
    );
    assert(text::texts(pieces@) =~= bash_pieces());
    text::join(&pieces, "")
}

// ---------------------------------------------------------------------------
// zsh

/// A command for zsh, which splits a value from its description at a colon.
pub open spec fn zsh_command(command: (Seq<char>, Seq<char>)) -> Seq<char> {
    "        '"@ + command.0 + ":"@ + text::replaced(command.1, ':', "\\:"@) + "'\n"@
}

pub open spec fn zsh_option(option: Seq<char>) -> Seq<char> {
    "        '"@ + option + "'\n"@
}

pub open spec fn zsh_pieces() -> Seq<Seq<char>> {
    seq![
        "#compdef herdr-updater\n# herdr-updater zsh completion\n# herdr-updater completions zsh > \"${fpath[1]}/_herdr-updater\"\n_herdr_updater() {\n    local -a commands options\n    commands=(\n"@,
    ] + Seq::new(command_list().len(), |i: int| zsh_command(command_list()[i])) + seq![
        "    )\n    options=(\n"@,
    ] + Seq::new(option_list().len(), |i: int| zsh_option(option_list()[i])) + seq![
        "    )\n    if (( CURRENT == 2 )); then\n        _describe -t commands 'herdr-updater command' commands\n    else\n        _describe -t options 'option' options\n    fi\n}\ncompdef _herdr_updater herdr-updater\n"@,
    ]
}

pub fn zsh() -> (r: String)
    ensures
        r@ == text::joined(zsh_pieces(), ""@),
{
    let mut pieces: Vec<String> = Vec::new();
    pieces.push(
        "#compdef herdr-updater\n# herdr-updater zsh completion\n# herdr-updater completions zsh > \"${fpath[1]}/_herdr-updater\"\n_herdr_updater() {\n    local -a commands options\n    commands=(\n".to_string(),
    );
    let all = commands();
    let mut i: usize = 0;
    assert(zsh_pieces().take(1) =~= seq![zsh_pieces()[0]]);
    assert(text::texts(pieces@) =~= zsh_pieces().take(1));
    while i < all.len()
        invariant
            i <= all.len(),
            all@.len() == command_list().len(),
            forall|k: int|
                0 <= k < all@.len() ==> ((#[trigger] all@[k]).name@, all@[k].description@)
                    == command_list()[k],
            text::texts(pieces@) == zsh_pieces().take(1 + i),
        decreases all.len() - i,
    {
        let ghost before = text::texts(pieces@);
        pieces.push(
            "        '".to_string().concat(all[i].name).concat(":").concat(
                text::replace(all[i].description, ':', "\\:").as_str(),
            ).concat("'\n"),
        );
        assert((all@[i as int].name@, all@[i as int].description@) == command_list()[i as int]);
        assert(text::texts(pieces@) =~= before.push(zsh_command(command_list()[i as int])));
        assert(zsh_pieces()[1 + i] == zsh_command(command_list()[i as int]));
        assert(zsh_pieces().take(2 + i) =~= zsh_pieces().take(1 + i).push(zsh_pieces()[1 + i]));
        i = i + 1;
    }
    let ghost mid = (1 + command_list().len()) as int;
    let ghost before = text::texts(pieces@);
    pieces.push("    )\n    options=(\n".to_string());
    assert(text::texts(pieces@) =~= before.push("    )\n    options=(\n"@));
    assert(zsh_pieces()[mid] == "    )\n    options=(\n"@);
    assert(zsh_pieces().take(mid + 1) =~= zsh_pieces().take(mid).push(zsh_pieces()[mid]));
    let names = options();
    let mut j: usize = 0;
    while j < names.len()
        invariant
            j <= names.len(),
            mid == 1 + command_list().len(),
            text::texts(names@) == option_list(),
            text::texts(pieces@) == zsh_pieces().take(mid + 1 + j),
        decreases names.len() - j,
    {
        let ghost before = text::texts(pieces@);
        pieces.push("        '".to_string().concat(names[j].as_str()).concat("'\n"));
        assert(option_list()[j as int] == names@[j as int]@);
        assert(text::texts(pieces@) =~= before.push(zsh_option(option_list()[j as int])));
        assert(zsh_pieces()[mid + 1 + j] == zsh_option(option_list()[j as int]));
        assert(zsh_pieces().take(mid + 2 + j) =~= zsh_pieces().take(mid + 1 + j).push(
            zsh_pieces()[mid + 1 + j],
        ));
        j = j + 1;
    }
    let ghost before = text::texts(pieces@);
    pieces.push(
        "    )\n    if (( CURRENT == 2 )); then\n        _describe -t commands 'herdr-updater command' commands\n    else\n        _describe -t options 'option' options\n    fi\n}\ncompdef _herdr_updater herdr-updater\n".to_string(),
    );
    assert(text::texts(pieces@) =~= before.push(zsh_pieces().last()));
    assert(text::texts(pieces@) =~= zsh_pieces());
    text::join(&pieces, "")
}

// ---------------------------------------------------------------------------
// fish

pub open spec fn fish_command(command: (Seq<char>, Seq<char>)) -> Seq<char> {
    "complete -c herdr-updater -n __fish_use_subcommand -a "@ + command.0 + " -d '"@
        + text::replaced(command.1, '\'', ""@) + "'\n"@
}

pub open spec fn fish_operand(command: Seq<char>, operand: Seq<char>) -> Seq<char> {
    "complete -c herdr-updater -n '__fish_seen_subcommand_from "@ + command + "' -a "@ + operand
        + "\n"@
}

pub open spec fn fish_option(option: Seq<char>) -> Seq<char> {
    "complete -c herdr-updater -l "@ + text::skip_class(option, CharClass::Dash) + "\n"@
}

pub open spec fn fish_operands(groups: Seq<(Seq<char>, Seq<Seq<char>>)>) -> Seq<Seq<char>>
    decreases groups.len(),
{
    if groups.len() == 0 {
        seq![]
    } else {
        let group = groups.last();
        fish_operands(groups.drop_last()) + Seq::new(
            group.1.len(),
            |j: int| fish_operand(group.0, group.1[j]),
        )
    }
}

pub open spec fn fish_pieces() -> Seq<Seq<char>> {
    seq![
        "# herdr-updater fish completion\n# herdr-updater completions fish > ~/.config/fish/completions/herdr-updater.fish\n"@,
    ] + Seq::new(command_list().len(), |i: int| fish_command(command_list()[i])) + fish_operands(
        operand_list(),
    ) + Seq::new(option_list().len(), |i: int| fish_option(option_list()[i]))
}

fn push_operands(pieces: &mut Vec<String>, group: &Operands)
    ensures
        text::texts(final(pieces)@) == text::texts(old(pieces)@) + Seq::new(
            operand_facts(*group).1.len(),
            |j: int| fish_operand(operand_facts(*group).0, operand_facts(*group).1[j]),
        ),
{
    let ghost first = text::texts(pieces@);
    let ghost facts = operand_facts(*group);
    let ghost added = Seq::new(facts.1.len(), |j: int| fish_operand(facts.0, facts.1[j]));
    let mut j: usize = 0;
    assert(first + added.take(0) =~= first);
    while j < group.operands.len()
        invariant
            j <= group.operands.len(),
            facts == operand_facts(*group),
            added == Seq::new(facts.1.len(), |k: int| fish_operand(facts.0, facts.1[k])),
            text::texts(pieces@) == first + added.take(j as int),
        decreases group.operands.len() - j,
    {
        let ghost before = text::texts(pieces@);
        pieces.push(
            "complete -c herdr-updater -n '__fish_seen_subcommand_from ".to_string().concat(
                group.command,
            ).concat("' -a ").concat(group.operands[j].as_str()).concat("\n"),
        );
        assert(facts.1[j as int] == group.operands@[j as int]@);
        assert(text::texts(pieces@) =~= before.push(added[j as int]));
        assert(first + added.take(j + 1) =~= (first + added.take(j as int)).push(added[j as int]));
        j = j + 1;
    }
    assert(added.take(j as int) =~= added);
}

pub fn fish() -> (r: String)
    ensures
        r@ == text::joined(fish_pieces(), ""@),
{
    let mut pieces: Vec<String> = Vec::new();
    pieces.push(
        "# herdr-updater fish completion\n# herdr-updater completions fish > ~/.config/fish/completions/herdr-updater.fish\n".to_string(),
    );
    let all = commands();
    let mut i: usize = 0;
    assert(text::texts(pieces@) =~= fish_pieces().take(1));
    while i < all.len()
        invariant
            i <= all.len(),
            all@.len() == command_list().len(),
            forall|k: int|
                0 <= k < all@.len() ==> ((#[trigger] all@[k]).name@, all@[k].description@)
                    == command_list()[k],
            text::texts(pieces@) == fish_pieces().take(1 + i),
        decreases all.len() - i,
    {
        let ghost before = text::texts(pieces@);
        pieces.push(
            "complete -c herdr-updater -n __fish_use_subcommand -a ".to_string().concat(
                all[i].name,
            ).concat(" -d '").concat(text::replace(all[i].description, '\'', "").as_str()).concat(
                "'\n",
            ),
        );
        assert((all@[i as int].name@, all@[i as int].description@) == command_list()[i as int]);
        assert(text::texts(pieces@) =~= before.push(fish_command(command_list()[i as int])));
        assert(fish_pieces()[1 + i] == fish_command(command_list()[i as int]));
        assert(fish_pieces().take(2 + i) =~= fish_pieces().take(1 + i).push(fish_pieces()[1 + i]));
        i = i + 1;
    }
    let ghost mid = (1 + command_list().len()) as int;
    let ghost head = text::texts(pieces@);
    let groups = operand_groups();
    let ghost list = operand_list();
    push_operands(&mut pieces, &groups[0]);
    push_operands(&mut pieces, &groups[1]);
    push_operands(&mut pieces, &groups[2]);
    proof {
        assert(list.take(0) =~= seq![]);
        assert(list.take(1).drop_last() =~= list.take(0));
        assert(list.take(2).drop_last() =~= list.take(1));
        assert(list.take(3).drop_last() =~= list.take(2));
        assert(list.take(3) =~= list);
        assert(operand_facts(groups@[0]) == list[0]);
        assert(operand_facts(groups@[1]) == list[1]);
        assert(operand_facts(groups@[2]) == list[2]);
        reveal_with_fuel(fish_operands, 4);
        assert(text::texts(pieces@) =~= head + fish_operands(list));
        assert(text::texts(pieces@) =~= fish_pieces().take(mid + fish_operands(list).len()));
    }
    let ghost late = mid + fish_operands(list).len();
    let names = options();
    let mut j: usize = 0;
    while j < names.len()
        invariant
            j <= names.len(),
            list == operand_list(),
            late == 1 + command_list().len() + fish_operands(list).len(),
            text::texts(names@) == option_list(),
            text::texts(pieces@) == fish_pieces().take(late + j),
        decreases names.len() - j,
    {
        let ghost before = text::texts(pieces@);
        pieces.push(
            "complete -c herdr-updater -l ".to_string().concat(
                text::skip_class_of(names[j].as_str(), CharClass::Dash),
            ).concat("\n"),
        );
        assert(option_list()[j as int] == names@[j as int]@);
        assert(text::texts(pieces@) =~= before.push(fish_option(option_list()[j as int])));
        assert(fish_pieces()[late + j] == fish_option(option_list()[j as int]));
        assert(fish_pieces().take(late + j + 1) =~= fish_pieces().take(late + j).push(
            fish_pieces()[late + j],
        ));
        j = j + 1;
    }
    assert(text::texts(pieces@) =~= fish_pieces());
    text::join(&pieces, "")
}

/// The completion script of a shell, or that the shell is not known.
pub open spec fn script_of(shell: Seq<char>) -> Option<Seq<char>> {
    if shell == "bash"@ {
        Some(text::joined(bash_pieces(), ""@))
    } else if shell == "zsh"@ {
        Some(text::joined(zsh_pieces(), ""@))
    } else if shell == "fish"@ {
        Some(text::joined(fish_pieces(), ""@))
    } else {
        None
    }
}

pub fn render(shell: &str) -> (r: Result<String, String>)
    ensures
        match script_of(shell@) {
            Some(script) => r matches Ok(s) && s@ == script,
            None => r matches Err(e) && e@ == "unknown shell "@ + text::debug_text(shell@)
                + "; supported shells are bash, zsh, and fish"@,
        },
{
    if text::text_eq(shell, "bash") {
        Ok(bash())
    } else if text::text_eq(shell, "zsh") {
        Ok(zsh())
    } else if text::text_eq(shell, "fish") {
        Ok(fish())
    } else {
        Err(
            "unknown shell ".to_string().concat(text::quoted(shell).as_str()).concat(
                "; supported shells are bash, zsh, and fish",
            ),
        )
    }
}

// ---------------------------------------------------------------------------
// What the scripts offer

proof fn lemma_has_self(s: Seq<char>)
    ensures
        text::has_text(s, s),
{
    assert(s.subrange(0, s.len() as int) =~= s);
    assert(text::occurs_at(s, s, 0));
}

proof fn lemma_has_inside(before: Seq<char>, s: Seq<char>, after: Seq<char>, t: Seq<char>)
    requires
        text::has_text(s, t),
    ensures
        text::has_text(before + s + after, t),
{
    let i = choose|i: int| text::occurs_at(s, t, i);
    let whole = before + s + after;
    let k = before.len() + i;
    assert(whole.subrange(k, k + t.len()) =~= s.subrange(i, i + t.len()));
    assert(text::occurs_at(whole, t, k));
}

proof fn lemma_joined_has(parts: Seq<Seq<char>>, sep: Seq<char>, i: int, t: Seq<char>)
    requires
        0 <= i < parts.len(),
        text::has_text(parts[i], t),
    ensures
        text::has_text(text::joined(parts, sep), t),
    decreases parts.len(),
{
    if parts.len() > 1 {
        let before = text::joined(parts.drop_last(), sep);
        let whole = text::joined(parts, sep);
        if i < parts.len() - 1 {
            lemma_joined_has(parts.drop_last(), sep, i, t);
            lemma_has_inside(seq![], before, sep + parts.last(), t);
            assert(whole =~= seq![] + before + (sep + parts.last()));
        } else {
            lemma_has_inside(before + sep, parts.last(), seq![], t);
            assert(whole =~= before + sep + parts.last() + seq![]);
        }
    }
}

/// How an option stands in a script: fish writes it without its dashes.
pub open spec fn option_word(shell: Seq<char>, option: Seq<char>) -> Seq<char> {
    if shell == "fish"@ {
        text::skip_class(option, CharClass::Dash)
    } else {
        option
    }
}

proof fn lemma_command_offered(shell: Seq<char>, i: int)
    requires
        script_of(shell) is Some,
        0 <= i < command_list().len(),
    ensures
        text::has_text(script_of(shell)->0, command_list()[i].0),
{
    let name = command_list()[i].0;
    let description = command_list()[i].1;
    lemma_has_self(name);
    reveal_strlit("bash");
    reveal_strlit("zsh");
    reveal_strlit("fish");
    if shell == "bash"@ {
        let names = Seq::new(command_list().len(), |k: int| command_list()[k].0);
        lemma_joined_has(names, " "@, i, name);
        let head = "    if [[ \"$cur\" == -* ]]; then\n        COMPREPLY=( $(compgen -W \""@
            + text::joined(option_list(), " "@)
            + "\" -- \"$cur\") )\n    else\n        COMPREPLY=( $(compgen -W \""@;
        lemma_has_inside(
            head,
            names_text(),
            "\" -- \"$cur\") )\n    fi\n}\ncomplete -F _herdr_updater herdr-updater\n"@,
            name,
        );
        lemma_joined_has(bash_pieces(), ""@, bash_pieces().len() - 1, name);
    } else if shell == "zsh"@ {
        let tail = ":"@ + text::replaced(description, ':', "\\:"@) + "'\n"@;
        lemma_has_inside("        '"@, name, tail, name);
        assert(zsh_command(command_list()[i]) =~= "        '"@ + name + tail);
        assert(zsh_pieces()[1 + i] == zsh_command(command_list()[i]));
        lemma_joined_has(zsh_pieces(), ""@, 1 + i, name);
    } else {
        let head = "complete -c herdr-updater -n __fish_use_subcommand -a "@;
        let tail = " -d '"@ + text::replaced(description, '\'', ""@) + "'\n"@;
        lemma_has_inside(head, name, tail, name);
        assert(fish_command(command_list()[i]) =~= head + name + tail);
        assert(fish_pieces()[1 + i] == fish_command(command_list()[i]));
        lemma_joined_has(fish_pieces(), ""@, 1 + i, name);
    }
}

proof fn lemma_option_offered(shell: Seq<char>, i: int)
    requires
        script_of(shell) is Some,
        0 <= i < option_list().len(),
    ensures
        text::has_text(script_of(shell)->0, option_word(shell, option_list()[i])),
{
    let word = option_word(shell, option_list()[i]);
    lemma_has_self(word);
    reveal_strlit("bash");
    reveal_strlit("zsh");
    reveal_strlit("fish");
    if shell == "bash"@ {
        assert(shell.len() == 4 && shell[0] == 'b' && "fish"@[0] == 'f');
        lemma_joined_has(option_list(), " "@, i, word);
        let head = "    if [[ \"$cur\" == -* ]]; then\n        COMPREPLY=( $(compgen -W \""@;
        let tail = "\" -- \"$cur\") )\n    else\n        COMPREPLY=( $(compgen -W \""@
            + names_text()
            + "\" -- \"$cur\") )\n    fi\n}\ncomplete -F _herdr_updater herdr-updater\n"@;
        lemma_has_inside(head, text::joined(option_list(), " "@), tail, word);
        assert(bash_pieces().last() =~= head + text::joined(option_list(), " "@) + tail);
        lemma_joined_has(bash_pieces(), ""@, bash_pieces().len() - 1, word);
    } else if shell == "zsh"@ {
        assert(shell.len() == 3 && "fish"@.len() == 4);
        let at = (2 + command_list().len() + i) as int;
        lemma_has_inside("        '"@, word, "'\n"@, word);
        assert(zsh_pieces()[at] == zsh_option(option_list()[i]));
        lemma_joined_has(zsh_pieces(), ""@, at, word);
    } else {
        let at = (1 + command_list().len() + fish_operands(operand_list()).len() + i) as int;
        lemma_has_inside("complete -c herdr-updater -l "@, word, "\n"@, word);
        assert(fish_pieces()[at] == fish_option(option_list()[i]));
        lemma_joined_has(fish_pieces(), ""@, at, word);
    }
}

/// Every script offers every command and every option.
pub proof fn law_scripts_offer_everything(shell: Seq<char>)
    requires
        script_of(shell) is Some,
    ensures
        forall|i: int|
            0 <= i < command_list().len() ==> text::has_text(
                script_of(shell)->0,
                (#[trigger] command_list()[i]).0,
            ),
        forall|i: int|
            0 <= i < option_list().len() ==> text::has_text(
                script_of(shell)->0,
                option_word(shell, #[trigger] option_list()[i]),
            ),
{
    assert forall|i: int| 0 <= i < command_list().len() implies text::has_text(
        script_of(shell)->0,
        (#[trigger] command_list()[i]).0,
    ) by {
        lemma_command_offered(shell, i);
    }
    assert forall|i: int| 0 <= i < option_list().len() implies text::has_text(
        script_of(shell)->0,
        option_word(shell, #[trigger] option_list()[i]),
    ) by {
        lemma_option_offered(shell, i);
    }
}

} // verus!
