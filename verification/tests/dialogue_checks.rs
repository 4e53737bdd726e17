use lost_oppai::runner::{stop_chat_command, trigger_ending_command, EndingTriggered, RunnerFlags};
use lost_oppai::npc::{NpcDialogue, NpcParseError};
use lost_oppai::yarn::{
    command_spelled_right, files_set_required_variables, files_spell_commands, files_follow,
    required_variables_set, files_match_names, files_name_known_npcs, line_follows, name_matches_file,
    npc_lines_complete,
    npc_line_counts, npc_line_report, npc_name_exists, number_npc_lines, number_player_lines,
    number_player_options, yarn_file_stem, CommandRule, NameCheck, NpcNameCheck, YarnFile,
};

const JOTEM: &str = "title: Jotem
---
<<set $name to \"Jotem\">>
<<set $target_npc to \"_Isabelle\">>
<<set $talked_with_target_npc to false>>
{$name}: Hello there.
You: Hi.
-> Who are you?
    {$name}: A friend.
    <<target_npc_mentioned {$name} {$target_npc}>>
-> Bye.
    <<stop_chat>>
    ...
{$name}: Go on then.
<<trigger_ending {$name}>>
===
";

const ISABELLE: &str = "title: Isabelle
---
<<set $name to \"_Isabelle\">>
<<set $target_npc to \"Jotem\">>
{$name}: Who goes there?
{$Jotem}: It is me.
You: Nobody.
-> Leave
    <<stop_chat>>
===
";

fn sample_files() -> Vec<YarnFile> {
    vec![
        YarnFile { contents: JOTEM.to_string(), name: "jotem".to_string() },
        YarnFile { contents: ISABELLE.to_string(), name: "isabelle".to_string() },
    ]
}

fn chars(s: &str) -> Vec<char> {
    s.chars().collect()
}

#[test]
fn validate_target_npc_mentioned_command() {
    assert!(files_follow(&sample_files(), CommandRule::TargetNpcMentioned));
}

#[test]
fn validate_stop_chat_command() {
    assert!(files_follow(&sample_files(), CommandRule::StopChat));
}

#[test]
fn validate_trigger_ending() {
    assert!(files_follow(&sample_files(), CommandRule::TriggerEnding));
}

#[test]
fn validate_custom_commands() {
    assert!(files_spell_commands(&sample_files()));
}

#[test]
fn commands_close_to_a_custom_command_must_match_it() {
    assert!(command_spelled_right(&chars("<<stop_chat>>")));
    assert!(command_spelled_right(&chars("<<trigger_ending {$name}>>")));
    assert!(command_spelled_right(&chars("<<set $name to \"Jotem\">>")));
    assert!(command_spelled_right(&chars("plain text with stop_chta")));
    assert!(!command_spelled_right(&chars("<<stop_chta>>")));
    assert!(!command_spelled_right(&chars("<<trigger_endings {$name}>>")));
    assert!(!command_spelled_right(&chars("<<<<target_npc_mentiond>>>> x")));
    let bad = vec![YarnFile { contents: "<<stopchat>>\n".to_string(), name: "x".to_string() }];
    assert!(!files_spell_commands(&bad));
}

#[test]
fn check_all_required_variables() {
    let isabelle = ISABELLE.replace(
        "<<set $target_npc to \"Jotem\">>",
        "<<set $target_npc to \"Jotem\">>\n<<set $talked_with_target_npc to false>>",
    );
    let files = vec![
        YarnFile { contents: JOTEM.to_string(), name: "jotem".to_string() },
        YarnFile { contents: isabelle, name: "isabelle".to_string() },
    ];
    assert!(files_set_required_variables(&files));
}

#[test]
fn missing_required_variables_are_reported() {
    assert_eq!(required_variables_set(JOTEM), vec![true, true, true]);
    assert_eq!(required_variables_set(ISABELLE), vec![true, true, false]);
    assert_eq!(required_variables_set("<<set $$name to 1>>\n  <<set target_npc to 2>>\n"), vec![true, true, false]);
    assert_eq!(required_variables_set("<<set  $name to 1>>\n<<setname>>\n"), vec![false, false, false]);
    assert!(!files_set_required_variables(&sample_files()));
}

#[test]
fn validate_npc_names_existence() {
    assert!(files_name_known_npcs(&sample_files()));
}

#[test]
fn match_names_with_files() {
    let files = vec![YarnFile { contents: JOTEM.to_string(), name: "jotem".to_string() }];
    assert!(files_match_names(&files));
}

#[test]
fn misspelled_commands_are_caught() {
    assert!(!line_follows(CommandRule::StopChat, &chars("<<stop_chat >>")));
    assert!(line_follows(CommandRule::StopChat, &chars("<<stop_chat>>")));
    assert!(line_follows(CommandRule::StopChat, &chars("You: <<stop_chat")));
    assert!(!line_follows(CommandRule::TriggerEnding, &chars("<<trigger_ending Jotem>>")));
    assert!(!line_follows(
        CommandRule::TargetNpcMentioned,
        &chars("<<target_npc_mentioned {$name}>>")
    ));
    let bad = vec![YarnFile {
        contents: "title: X\n  <<stop_chat>>x\n".to_string(),
        name: "x".to_string(),
    }];
    assert!(!files_follow(&bad, CommandRule::StopChat));
    assert!(files_follow(&bad, CommandRule::TriggerEnding));
}

#[test]
fn name_checks_of_single_lines() {
    assert_eq!(name_matches_file(&chars("You: hi"), &chars("jotem")), NameCheck::NotApplicable);
    assert_eq!(
        name_matches_file(&chars("<<set $name to \"__Jotem\">>"), &chars("jotem")),
        NameCheck::Matches
    );
    assert_eq!(
        name_matches_file(&chars("<<set $name to \"Jotem\">>"), &chars("ionas")),
        NameCheck::Mismatch
    );
    assert_eq!(
        name_matches_file(&chars("<<set $name to Jotem>>"), &chars("jotem")),
        NameCheck::Malformed
    );
    assert_eq!(npc_name_exists(&chars("<<set $target_npc to \"_Ionas\">>")), NpcNameCheck::Known);
    assert_eq!(npc_name_exists(&chars("<<set $name to \"Sven\">>")), NpcNameCheck::Unknown);
    assert_eq!(npc_name_exists(&chars("<<set $name to \"A\" \"B\">>")), NpcNameCheck::Malformed);
    assert_eq!(npc_name_exists(&chars("<<set $other to \"Sven\">>")), NpcNameCheck::NotApplicable);
    let wrong = vec![YarnFile { contents: ISABELLE.to_string(), name: "jotem".to_string() }];
    assert!(!files_match_names(&wrong));
}

#[test]
fn line_counts_over_files() {
    let files = sample_files();
    assert_eq!(number_player_lines(&files), 2);
    assert_eq!(number_player_options(&files), 3);
    assert_eq!(number_npc_lines(&files), 5);
}

#[test]
fn speakers_are_tallied_by_count() {
    let counts = npc_line_counts(&sample_files());
    let pairs: Vec<(String, usize)> = counts.iter().map(|(n, c)| (n.clone(), *c)).collect();
    assert_eq!(
        pairs,
        vec![
            ("jotem".to_string(), 3),
            ("isabelle".to_string(), 1),
            ("Jotem".to_string(), 1)
        ]
    );
    let report = npc_line_report(&counts);
    assert_eq!(report[0], "  jotem       : 3");
    assert_eq!(report[2], "  Jotem       : 1");
}

#[test]
fn file_stem_is_the_name_before_the_first_dot() {
    assert_eq!(yarn_file_stem("jotem.yarn"), "jotem");
    assert_eq!(yarn_file_stem("a.b.c"), "a");
    assert_eq!(yarn_file_stem("plain"), "plain");
}

#[test]
fn stop_chat_marks_active_runners() {
    let mut flags = vec![RunnerFlags::new(NpcDialogue::Jotem), RunnerFlags::new(NpcDialogue::Ionas)];
    flags[1].active = false;
    assert!(!stop_chat_command(false, &mut flags));
    assert!(flags[0].line.is_none());
    assert!(stop_chat_command(true, &mut flags));
    assert_eq!(flags[0].line.as_ref().unwrap().text, "...");
    assert!(flags[1].line.is_none());
}

#[test]
fn trigger_ending_names_a_dialogue() {
    assert_eq!(
        trigger_ending_command("_Jotem"),
        Ok(EndingTriggered { dialogue: NpcDialogue::Jotem })
    );
    assert_eq!(trigger_ending_command("Nobody"), Err(NpcParseError::VariantNotFound));
}

#[test]
fn unfinished_speaker_names_are_found() {
    assert!(npc_lines_complete(&sample_files()));
    let broken = vec![YarnFile { contents: "{$name: hi\n".to_string(), name: "x".to_string() }];
    assert!(!npc_lines_complete(&broken));
}
