use herdr_updater::cli::USAGE;
use herdr_updater::completions::{commands, options, render, zsh};

#[test]
fn every_command_and_option_in_usage_is_completable() {
    let usage = USAGE;
    for command in commands() {
        let name = command.name;
        if name == "completions" {
            continue; // asserted separately below
        }
        assert!(
            usage.contains(&format!("    {name} ")) || usage.contains(&format!("    {name}\n")),
            "command {name:?} is completable but missing from USAGE"
        );
    }
    for option in options() {
        assert!(
            usage.contains(option.as_str()),
            "option {option:?} is completable but missing from USAGE"
        );
    }
    assert!(usage.contains("completions"), "the completions command must document itself");
}

#[test]
fn every_command_and_option_in_usage_has_a_completion_entry() {
    let usage = USAGE;
    let commands_block = usage
        .split("\nCOMMANDS\n")
        .nth(1)
        .and_then(|rest| rest.split("\nOPTIONS\n").next())
        .expect("USAGE must have a COMMANDS block");
    for line in commands_block.lines() {
        let Some(name) = line.strip_prefix("    ").and_then(|l| l.split_whitespace().next())
        else {
            continue;
        };
        assert!(
            commands().iter().any(|known| known.name == name),
            "command {name:?} is in USAGE but has no completion entry"
        );
    }

    let options_block = usage
        .split("\nOPTIONS\n")
        .nth(1)
        .and_then(|rest| rest.split("\nEXIT CODES\n").next())
        .expect("USAGE must have an OPTIONS block");
    assert!(
        options_block.contains("--json"),
        "the options block was not located; this check would pass vacuously"
    );
    for token in options_block.split_whitespace() {
        let flag = token.trim_end_matches(',');
        if !flag.starts_with("--") {
            continue;
        }
        assert!(
            options().iter().any(|known| known == flag),
            "option {flag:?} is in USAGE but has no completion entry"
        );
    }
}

#[test]
fn each_shell_renders_something_plausible() {
    let bash = render("bash").unwrap();
    assert!(bash.contains("complete -F _herdr_updater herdr-updater"));
    assert!(bash.contains("doctor"));
    let zsh = render("zsh").unwrap();
    assert!(zsh.starts_with("#compdef herdr-updater"));
    let fish = render("fish").unwrap();
    assert!(fish.contains("__fish_use_subcommand"));
    assert!(render("tcsh").is_err());
}

#[test]
fn zsh_descriptions_escape_the_field_separator() {
    assert!(!zsh().lines().any(|line| line.matches(':').count() > 1
        && !line.contains("\\:")
        && line.trim_start().starts_with('\'')));
}

#[test]
fn every_script_offers_everything() {
    for shell in ["bash", "zsh", "fish"] {
        let script = render(shell).unwrap();
        for command in commands() {
            assert!(script.contains(command.name), "{shell}: {}", command.name);
        }
        for option in options() {
            let word = if shell == "fish" { option.trim_start_matches('-') } else { &option };
            assert!(script.contains(word), "{shell}: {word}");
        }
    }
}

#[test]
fn operands_are_offered() {
    let bash = render("bash").unwrap();
    assert!(bash.contains(
        "        schedule) COMPREPLY=( $(compgen -W \"run install status remove\" -- \"$cur\") ); return 0 ;;\n"
    ));
    let fish = render("fish").unwrap();
    assert!(fish.contains(
        "complete -c herdr-updater -n '__fish_seen_subcommand_from sync' -a export\n"
    ));
    assert!(fish.contains("-a doctor -d 'check this tools own environment'\n"));
    assert!(fish.contains("complete -c herdr-updater -l json\n"));
    let zsh = render("zsh").unwrap();
    assert!(zsh.contains("        'update:alias for apply'\n"));
    assert!(render("tcsh").unwrap_err().contains("\"tcsh\""));
}
