use lost_oppai::bitmap::BitMap;
use lost_oppai::fauna::{ActionRoll, Bird, BirdSpeed, BirdState, Escape};
use lost_oppai::flora::{spawn_flora, unique_points, FloraKind, FloraSize};
use lost_oppai::menu::{
    dehighlight_button, ending_texts, highlight_button, speed_multiplier, toggle_play_blips,
    trigger_button_action, ButtonAction, Highlight, WriteStep, WriteableText,
};
use lost_oppai::option_selection::Interaction;
use lost_oppai::npc::NpcDialogue;
use lost_oppai::player::{
    icon_to_texture, Icon, KeyTexture, animation_index, despawn_hint, play_eleonore_flap_sound, play_step_sounds, start_chat,
    stop_chat, switch_player_move_state, Gait, PlayerState,
};

#[test]
fn player_states() {
    assert_eq!(switch_player_move_state(PlayerState::Idling, true, true), PlayerState::Running);
    assert_eq!(switch_player_move_state(PlayerState::Running, true, false), PlayerState::Walking);
    assert_eq!(switch_player_move_state(PlayerState::Walking, false, true), PlayerState::Idling);
    assert_eq!(switch_player_move_state(PlayerState::Talking, true, true), PlayerState::Talking);
    assert_eq!(animation_index(PlayerState::Running, 3), 11);
    assert_eq!(animation_index(PlayerState::Talking, 2), 2);
    assert_eq!(
        start_chat(true, false, PlayerState::Walking, &vec![false, true, true]),
        (PlayerState::Talking, Some(1))
    );
    assert_eq!(start_chat(true, true, PlayerState::Walking, &vec![true]), (PlayerState::Walking, None));
    assert_eq!(start_chat(true, false, PlayerState::Idling, &vec![false]), (PlayerState::Idling, None));
    assert!(stop_chat(true, PlayerState::Talking));
    assert!(!stop_chat(true, PlayerState::Idling));
}

#[test]
fn birds_flee_land_and_sound() {
    let mut bird = Bird::new();
    assert_eq!(bird.check_player_distance(false, false), None);
    assert_eq!(bird.check_player_distance(true, false), Some(Escape::Jump));
    assert_eq!(bird.state, BirdState::Jumping);
    assert_eq!(bird.sounds(), (true, false, false));
    assert_eq!(bird.speed(), BirdSpeed::JumpSpeed);
    bird.update_old_bird_state();
    bird.return_to_idle_state(false, false, false);
    assert_eq!(bird.state, BirdState::Jumping);
    bird.return_to_idle_state(false, true, false);
    assert_eq!(bird.state, BirdState::Idling);
    assert!(bird.pick_random_action(false, true, ActionRoll::Jump));
    assert_eq!(bird.state, BirdState::Jumping);
    bird.state = BirdState::Idling;
    assert!(bird.pick_random_action(true, false, ActionRoll::Keep));
    assert_eq!(bird.state, BirdState::Flying);
    assert_eq!(bird.animation(), (3, true));
    assert_eq!(bird.check_player_distance(true, true), None);
    bird.return_to_idle_state(true, true, false);
    assert_eq!(bird.state, BirdState::Flying);
    bird.update_old_bird_state();
    bird.return_to_idle_state(false, true, false);
    assert_eq!(bird.sounds(), (false, false, true));
}

#[test]
fn menu_buttons() {
    assert_eq!(speed_multiplier(ButtonAction::Fast), Some(10));
    assert_eq!(speed_multiplier(ButtonAction::Play), None);
    assert_eq!(trigger_button_action(ButtonAction::Quick, false, true), (true, true));
    assert_eq!(trigger_button_action(ButtonAction::Discord, false, true), (true, false));
    assert_eq!(trigger_button_action(ButtonAction::Quick, true, true), (false, false));
    assert!(dehighlight_button(ButtonAction::Normal, ButtonAction::Fast, true));
    assert!(!dehighlight_button(ButtonAction::Normal, ButtonAction::Normal, true));
    assert!(!dehighlight_button(ButtonAction::Play, ButtonAction::Fast, true));
    let presses = vec![ButtonAction::ToggleBlips, ButtonAction::Play, ButtonAction::ToggleBlips, ButtonAction::ToggleBlips];
    assert!(!toggle_play_blips(true, &presses));
    assert_eq!(ending_texts(NpcDialogue::Jotem), Some(("Pai joins Jotem", "Ending: Adventurer")));
    assert_eq!(ending_texts(NpcDialogue::Ionas), None);
}

#[test]
fn ending_text_is_written_char_by_char() {
    let mut t = WriteableText::new("Pai");
    assert_eq!(t.write_next(), WriteStep::First);
    assert_eq!(t.written_text, "P");
    assert_eq!(t.write_next(), WriteStep::Next);
    assert_eq!(t.write_next(), WriteStep::Next);
    assert_eq!(t.written_text, "Pai");
    assert_eq!(t.write_next(), WriteStep::Done);
    assert_eq!(t.text_left, "");
}

#[test]
fn flora_grows_on_grass_away_from_chunk_borders() {
    let mut map = BitMap::new();
    map.fill_player_starting_position();
    assert_eq!(spawn_flora(&mut map, (0, 0), (5, 5), FloraSize::Rock), Some(FloraKind::Rock));
    assert_eq!(spawn_flora(&mut map, (0, 0), (5, 5), FloraSize::Tree), Some(FloraKind::Tree));
    assert_eq!(spawn_flora(&mut map, (0, 0), (0, 5), FloraSize::Rock), None);
    assert_eq!(spawn_flora(&mut map, (0, 0), (5, 5), FloraSize::Nothing), None);
    assert_eq!(spawn_flora(&mut map, (5, 5), (5, 5), FloraSize::Rock), None);
    assert_eq!(unique_points(&vec![(1, 2), (3, 4), (1, 2)]), vec![true, true, false]);
}

#[test]
fn steps_hints_and_flaps() {
    assert_eq!(play_step_sounds(PlayerState::Running, true), Some(Gait::Run));
    assert_eq!(play_step_sounds(PlayerState::Walking, true), Some(Gait::Walk));
    assert_eq!(play_step_sounds(PlayerState::Walking, false), None);
    assert_eq!(play_step_sounds(PlayerState::Talking, true), None);
    assert_eq!(despawn_hint(false, PlayerState::Idling, &vec![false, true, true]), vec![false, true, false]);
    assert_eq!(despawn_hint(true, PlayerState::Idling, &vec![false, true]), vec![true, true]);
    assert_eq!(despawn_hint(false, PlayerState::Talking, &vec![false]), vec![true]);
    assert_eq!(play_eleonore_flap_sound(false, true), (true, true));
    assert_eq!(play_eleonore_flap_sound(true, true), (true, false));
    assert_eq!(play_eleonore_flap_sound(true, false), (false, false));
}

#[test]
fn fixed_queue_keeps_the_latest_values() {
    let mut q: lost_oppai::fixed_queue::FixedQueue<i32, 3> = lost_oppai::fixed_queue::FixedQueue::new();
    assert_eq!(q.values(), vec![None, None, None]);
    for v in [1, 2, 3, 4] {
        q.add(v);
    }
    assert_eq!(q.values(), vec![Some(4), Some(2), Some(3)]);
    assert_eq!(q.head, 1);
}

#[test]
fn buttons_animate_unless_selected() {
    assert_eq!(highlight_button(Interaction::Pressed, false), Some(Highlight::Press));
    assert_eq!(highlight_button(Interaction::Hovered, false), Some(Highlight::Hover));
    assert_eq!(highlight_button(Interaction::Idle, false), Some(Highlight::Release));
    assert_eq!(highlight_button(Interaction::Pressed, true), None);
}

#[test]
fn keys_and_arrows_share_textures() {
    assert_eq!(icon_to_texture(Icon::DownKey), KeyTexture::Down);
    assert_eq!(icon_to_texture(Icon::DownArrow), KeyTexture::Down);
    assert_eq!(icon_to_texture(Icon::LeftArrow), KeyTexture::Left);
    assert_eq!(icon_to_texture(Icon::RightKey), KeyTexture::Right);
    assert_eq!(icon_to_texture(Icon::UpArrow), KeyTexture::Up);
    assert_eq!(icon_to_texture(Icon::ShiftKey), KeyTexture::Shift);
}
