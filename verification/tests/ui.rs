use lost_oppai::npc::{mark_talked_to, Npc, NpcDialogue};
use lost_oppai::option_selection::{DialogueOption, Interaction, OptionSelection};
use lost_oppai::runner::{
    activate_dialogue_runner, continue_dialogue, deactivate_dialogue_runner,
    mentioned_by_variables, monitor_active_runners, present_line, reset_option_flag,
    talked_with_target, DialogueLine, RunnerFlags, UpdateTargetNpcs,
};
use lost_oppai::typewriter::{Pause, Typewriter};

fn option(id: usize, text: &str, is_available: bool) -> DialogueOption {
    DialogueOption { id, text: text.to_string(), is_available }
}

#[test]
fn typewriter_writes_graphemes_in_steps() {
    let mut t = Typewriter::new();
    t.set_line(Some("Jotem".to_string()), "Hi, you!", false);
    assert_eq!(t.graphemes_left.len(), 8);
    assert!(!t.is_finished());
    let (added, pause) = t.update_current_text(3);
    assert_eq!(added, "Hi,");
    assert_eq!(pause, Pause::Comma);
    assert_eq!(t.current_text, "Hi,");
    let (added, pause) = t.update_current_text(100);
    assert_eq!(added, " you!");
    assert_eq!(pause, Pause::Exclamation);
    assert!(t.is_finished());
    assert!(t.send_finished_event());
    assert!(!t.send_finished_event());
    let (added, pause) = t.update_current_text(5);
    assert_eq!(added, "");
    assert_eq!(pause, Pause::NoPause);
}

#[test]
fn typewriter_keeps_combining_marks_together() {
    let mut t = Typewriter::new();
    t.set_line(None, "e\u{301}a", false);
    assert_eq!(t.graphemes_left.len(), 2);
    let (added, _) = t.update_current_text(1);
    assert_eq!(added, "e\u{301}");
}

#[test]
fn periods_pause_unless_more_follow() {
    let mut t = Typewriter::new();
    t.set_line(None, "...a", false);
    assert_eq!(t.update_current_text(1).1, Pause::NoPause);
    assert_eq!(t.update_current_text(1).1, Pause::NoPause);
    assert_eq!(t.update_current_text(1).1, Pause::Period);
    let mut u = Typewriter::new();
    u.set_line(None, "a.", false);
    assert_eq!(u.update_current_text(2).1, Pause::Period);
    let mut v = Typewriter::new();
    v.set_line(None, "?:", false);
    assert_eq!(v.update_current_text(2).1, Pause::Question);
}

#[test]
fn typewriter_finishes_and_resets() {
    let mut t = Typewriter::new();
    t.set_line(None, "abc", true);
    t.update_current_text(1);
    t.finish_current_line();
    assert_eq!(t.current_text, "abc");
    assert!(t.graphemes_left.is_empty());
    assert!(t.last_before_options);
    t.reset();
    assert!(!t.is_finished());
    t.set_completed_line(Some("You".to_string()), "Done.".to_string(), false);
    assert!(t.is_finished());
    assert!(!t.send_finished_event());
}

#[test]
fn options_are_split_by_availability() {
    let all = vec![option(0, "a", true), option(1, "b", false), option(2, "c", true)];
    let sel = OptionSelection::from_option_set(&all);
    let ids: Vec<usize> = sel.get_options().iter().map(|o| o.id).collect();
    let unavailable: Vec<usize> = sel.get_unavailable_options().iter().map(|o| o.id).collect();
    assert_eq!(ids, vec![0, 2]);
    assert_eq!(unavailable, vec![1]);
    assert!(sel.mouse_input);
    assert_eq!(sel.current_selection, None);
}

#[test]
fn keys_move_and_confirm_the_selection() {
    let all = vec![option(4, "a", true), option(5, "b", true), option(6, "c", true)];
    let mut sel = OptionSelection::from_option_set(&all);
    let buttons = vec![(Interaction::Idle, 4), (Interaction::Idle, 5), (Interaction::Idle, 6)];
    let out = sel.select_option(true, false, -1, &buttons, false);
    assert_eq!(sel.current_selection, Some(0));
    assert!(!sel.mouse_input);
    assert_eq!(out.highlighted, Some(vec![true, false, false]));
    sel.select_option(true, false, -1, &buttons, false);
    sel.select_option(true, false, -1, &buttons, false);
    sel.select_option(true, false, -1, &buttons, false);
    assert_eq!(sel.current_selection, Some(2));
    let out = sel.select_option(true, false, 1, &buttons, true);
    assert_eq!(sel.current_selection, Some(1));
    assert_eq!(out.chosen, vec![5]);
    let out = sel.select_option(false, true, 1, &buttons, true);
    assert!(out.chosen.is_empty());
    assert_eq!(sel.current_selection, Some(1));
}

#[test]
fn the_mouse_chooses_and_hovers() {
    let all = vec![option(4, "a", true), option(5, "b", true)];
    let mut sel = OptionSelection::from_option_set(&all);
    sel.current_selection = Some(1);
    let buttons = vec![(Interaction::Hovered, 4), (Interaction::Pressed, 5)];
    let out = sel.select_option(true, true, 0, &buttons, false);
    assert!(sel.mouse_input);
    assert_eq!(sel.current_selection, None);
    assert_eq!(out.highlighted, Some(vec![true, false]));
    assert_eq!(out.chosen, vec![5]);
}

#[test]
fn runners_activate_and_count() {
    let mut flags = vec![RunnerFlags::new(NpcDialogue::Jotem), RunnerFlags::new(NpcDialogue::Ionas)];
    deactivate_dialogue_runner(&mut flags);
    assert_eq!(monitor_active_runners(&flags), 0);
    assert!(activate_dialogue_runner(&mut flags, NpcDialogue::Ionas));
    assert!(flags[1].active && !flags[0].active);
    assert_eq!(monitor_active_runners(&flags), 1);
    assert!(!activate_dialogue_runner(&mut flags, NpcDialogue::Isabelle));
}

#[test]
fn variable_update_waits_three_frames() {
    let mut delay = UpdateTargetNpcs::new();
    assert!(!delay.step(false));
    assert!(!delay.step(true));
    assert!(!delay.step(false));
    assert!(!delay.step(false));
    assert!(delay.step(false));
    assert!(!delay.step(false));
    assert_eq!(delay.frames, 0);
}

#[test]
fn talked_to_and_mentioned() {
    let mut npcs = vec![Npc::new(NpcDialogue::Jotem), Npc::new(NpcDialogue::Isabelle)];
    assert!(!talked_with_target("Jotem", &npcs));
    mark_talked_to(&mut npcs, NpcDialogue::Jotem);
    assert!(talked_with_target("Jotem", &npcs));
    assert!(!talked_with_target("Isabelle", &npcs));
    npcs[1].was_mentioned_by.push(NpcDialogue::Jotem);
    npcs[1].was_mentioned_by.push(NpcDialogue::Ionas);
    assert_eq!(
        mentioned_by_variables(NpcDialogue::Isabelle, &npcs),
        vec!["$mentioned_by_Jotem".to_string(), "$mentioned_by_Ionas".to_string()]
    );
    assert!(mentioned_by_variables(NpcDialogue::Jotem, &npcs).is_empty());
}

#[test]
fn lines_and_options_follow_the_active_runner() {
    let mut flags = vec![RunnerFlags::new(NpcDialogue::Jotem), RunnerFlags::new(NpcDialogue::Ionas)];
    flags[1].active = false;
    let line = DialogueLine {
        character_name: Some("Jotem".to_string()),
        text: "Hello".to_string(),
        last_before_options: true,
    };
    present_line(&mut flags, &line);
    assert_eq!(flags[0].line.as_ref().unwrap().text, "Hello");
    assert!(flags[1].line.is_none());
    let options = vec![DialogueOption { id: 1, text: "a".to_string(), is_available: true }];
    flags[0].options = Some(OptionSelection::from_option_set(&options));
    flags[1].options = Some(OptionSelection::from_option_set(&options));
    reset_option_flag(&mut flags);
    assert!(flags[0].options.is_none());
    assert!(flags[1].options.is_some());
}

#[test]
fn when_the_dialogue_goes_on() {
    let mut t = Typewriter::new();
    t.set_line(None, "Hi", false);
    assert!(!continue_dialogue(true, &t, false));
    t.finish_current_line();
    assert!(continue_dialogue(true, &t, false));
    assert!(!continue_dialogue(true, &t, true));
    assert!(!continue_dialogue(false, &t, false));
    t.set_completed_line(None, "Choose".to_string(), true);
    assert!(continue_dialogue(false, &t, false));
}
