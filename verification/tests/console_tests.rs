use ace_of_the_heavens::console::{
    apply_commands, command_text_cut_short, nerf_command, receive_commands, reset_command,
    reset_commands, AceCommands, CommandQueue,
};
use ace_of_the_heavens::network::PlayerType;

#[test]
fn command_text_form() {
    assert_eq!(AceCommands::Nerf(1, 9, 1700000000123).to_string(), "nerf 1 9 1700000000123");
    assert_eq!(AceCommands::Nerf(0, 0, -5).to_string(), "nerf 0 0 -5");
    assert_eq!(
        AceCommands::Nerf(0, 3, i64::MIN).to_string(),
        "nerf 0 3 -9223372036854775808"
    );
}

#[test]
fn command_roundtrip() {
    for c in [
        AceCommands::Nerf(1, 9, 1700000000123),
        AceCommands::Nerf(0, 0, -5),
        AceCommands::Nerf(usize::MAX, 4, i64::MIN),
        AceCommands::Nerf(1, 2, i64::MAX),
    ] {
        assert_eq!(AceCommands::from_str(&c.to_string()), Some(c));
    }
}

#[test]
fn command_parsing() {
    assert_eq!(AceCommands::from_str("nerf 1 2 3"), Some(AceCommands::Nerf(1, 2, 3)));
    assert_eq!(
        AceCommands::from_str("  nerf\t+1  2 -3 extra words"),
        Some(AceCommands::Nerf(1, 2, -3))
    );
    assert_eq!(AceCommands::from_str(""), None);
    assert_eq!(AceCommands::from_str("nerf"), None);
    assert_eq!(AceCommands::from_str("dummy 1 2 3"), None);
    assert_eq!(AceCommands::from_str("nerf x"), None);
    assert_eq!(AceCommands::from_str("nerf 1 y 3"), None);
    assert_eq!(AceCommands::from_str("nerf 1 2 z"), None);
    assert_eq!(AceCommands::from_str("nerf -1 2 3"), None);
    assert_eq!(AceCommands::from_str("nerf 1 2 9223372036854775808"), None);
    assert_eq!(
        AceCommands::from_str("nerf 1 2 -9223372036854775808"),
        Some(AceCommands::Nerf(1, 2, i64::MIN))
    );
    assert_eq!(AceCommands::from_str("nerf 1 2 +"), None);
    assert_eq!(AceCommands::from_str("Nerf 1 2 3"), None);
}

#[test]
fn due_commands_are_applied_in_order() {
    let mut q = CommandQueue::new();
    q.queue.push(AceCommands::Nerf(0, 3, 1000));
    q.queue.push(AceCommands::Nerf(1, 4, 2000));
    q.queue.push(AceCommands::Nerf(1, 5, 500));
    let applied = apply_commands(&mut q, &vec![2600, 2600, 2600]);
    assert_eq!(applied, vec![(0, 3), (1, 5)]);
    assert_eq!(q.queue, vec![AceCommands::Nerf(1, 4, 2000)]);
    // exactly at the threshold it is due
    let applied = apply_commands(&mut q, &vec![3500]);
    assert_eq!(applied, vec![(1, 4)]);
    assert!(q.queue.is_empty());
}

#[test]
fn extreme_timestamps_do_not_overflow() {
    let mut q = CommandQueue::new();
    q.queue.push(AceCommands::Nerf(0, 1, i64::MIN));
    q.queue.push(AceCommands::Nerf(0, 2, i64::MAX));
    let applied = apply_commands(&mut q, &vec![i64::MAX, i64::MAX]);
    assert_eq!(applied, vec![(0, 1)]);
    assert_eq!(q.queue, vec![AceCommands::Nerf(0, 2, i64::MAX)]);
}

#[test]
fn each_command_is_judged_at_its_own_time() {
    let mut q = CommandQueue::new();
    q.queue.push(AceCommands::Nerf(0, 1, 1000));
    q.queue.push(AceCommands::Nerf(1, 2, 1000));
    // the clock moved past the threshold between the two readings
    let applied = apply_commands(&mut q, &vec![2499, 2500]);
    assert_eq!(applied, vec![(1, 2)]);
    assert_eq!(q.queue, vec![AceCommands::Nerf(0, 1, 1000)]);
}

#[test]
fn commands_from_the_future_stay_queued() {
    let mut q = CommandQueue::new();
    q.queue.push(AceCommands::Nerf(0, 1, i64::MAX));
    q.queue.push(AceCommands::Nerf(1, 2, 0));
    assert_eq!(apply_commands(&mut q, &vec![1_700_000_000_000, 1_700_000_000_001]), vec![(1, 2)]);
    assert_eq!(q.queue, vec![AceCommands::Nerf(0, 1, i64::MAX)]);
}

#[test]
fn old_commands_apply_now() {
    let mut q = CommandQueue::new();
    q.queue.push(AceCommands::Nerf(1, 2, 0));
    assert_eq!(apply_commands(&mut q, &vec![1_700_000_000_000]), vec![(1, 2)]);
    assert!(q.queue.is_empty());
}

#[test]
fn received_messages_are_queued() {
    let mut q = CommandQueue::new();
    let msgs = vec!["nerf 0 1 10".to_string(), "garbage".to_string(), "nerf 1 2 20".to_string()];
    let failed = receive_commands(&mut q, &msgs);
    assert_eq!(failed, 1);
    assert_eq!(q.queue, vec![AceCommands::Nerf(0, 1, 10), AceCommands::Nerf(1, 2, 20)]);
}

#[test]
fn nerf_command_validates_and_broadcasts() {
    let players = vec![PlayerType::Local, PlayerType::Remote(77)];
    let mut q = CommandQueue::new();
    let now = vec![1_700_000_000_123];
    assert!(nerf_command(&mut q, 2, 1, &players, &now).is_none());
    assert!(nerf_command(&mut q, 0, 10, &players, &now).is_none());
    assert!(q.queue.is_empty());
    let msgs = nerf_command(&mut q, 1, 9, &players, &now).unwrap();
    assert_eq!(msgs, vec![(77, "nerf 1 9 1700000000123".to_string())]);
    assert_eq!(q.queue, vec![AceCommands::Nerf(1, 9, 1_700_000_000_123)]);
    // no remote player: nothing to send, nothing queued
    let msgs = nerf_command(&mut q, 0, 0, &vec![PlayerType::Local], &vec![]).unwrap();
    assert!(msgs.is_empty());
    assert_eq!(q.queue.len(), 1);
}

#[test]
fn reset_command_resets_both_players() {
    let players = vec![PlayerType::Remote(5), PlayerType::Local];
    let mut q = CommandQueue::new();
    let msgs = reset_command(&mut q, &players, &vec![42]);
    assert_eq!(
        msgs,
        vec![(5, "nerf 0 0 42".to_string()), (5, "nerf 1 0 42".to_string())]
    );
    assert_eq!(q.queue, vec![AceCommands::Nerf(0, 0, 42), AceCommands::Nerf(1, 0, 42)]);
    reset_commands(&mut q);
    assert!(q.queue.is_empty());
}

#[test]
fn commands_for_several_remote_players_carry_their_own_times() {
    let players = vec![PlayerType::Remote(3), PlayerType::Local, PlayerType::Remote(9)];
    let mut q = CommandQueue::new();
    let msgs = nerf_command(&mut q, 0, 4, &players, &vec![10, 11]).unwrap();
    assert_eq!(msgs, vec![(3, "nerf 0 4 10".to_string()), (9, "nerf 0 4 11".to_string())]);
    let msgs = reset_command(&mut q, &players, &vec![20, 21]);
    assert_eq!(msgs.iter().map(|m| m.0).collect::<Vec<_>>(), vec![3, 3, 9, 9]);
    assert_eq!(
        q.queue,
        vec![
            AceCommands::Nerf(0, 4, 10),
            AceCommands::Nerf(0, 4, 11),
            AceCommands::Nerf(0, 0, 20),
            AceCommands::Nerf(1, 0, 20),
            AceCommands::Nerf(0, 0, 21),
            AceCommands::Nerf(1, 0, 21),
        ]
    );
}

#[test]
fn cut_short_command_texts() {
    assert!(command_text_cut_short("nerf 1"));
    assert!(command_text_cut_short("  nerf +1 2 "));
    assert!(!command_text_cut_short("nerf 1 2 3"));
    assert!(!command_text_cut_short("nerf x"));
    assert!(!command_text_cut_short("nerf 1 x"));
    assert!(!command_text_cut_short("dummy 1"));
    assert!(!command_text_cut_short("nerf"));
    assert!(!command_text_cut_short(""));
}
