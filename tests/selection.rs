use control_music::selection::{
    get_player_interfaces, next_step, player_exists, SavedPlayer, SelectError, SelectionStep,
};

fn names(xs: &[&str]) -> Vec<String> {
    xs.iter().map(|x| x.to_string()).collect()
}

/// Runs selection to its end, answering status reads from `statuses` and the
/// remembered-player read from `saved`; returns the outcome and how many
/// statuses were read.
fn run(
    players: &[&str],
    statuses: &[&str],
    saved: Option<&str>,
) -> (Result<(String, bool), SelectError>, usize) {
    let players = names(players);
    let mut read: Vec<String> = Vec::new();
    let mut known = SavedPlayer::Unread;
    loop {
        match next_step(&players, &read, &known) {
            SelectionStep::ReadStatus(i) => read.push(statuses[i].to_string()),
            SelectionStep::ReadSaved => {
                known = match saved {
                    Some(p) => SavedPlayer::Found(p.to_string()),
                    None => SavedPlayer::Absent,
                }
            }
            SelectionStep::Select { player, persist } => return (Ok((player, persist)), read.len()),
            SelectionStep::Fail(e) => return (Err(e), read.len()),
        }
    }
}

#[test]
fn filters_player_names_in_order() {
    let all = names(&[
        "org.freedesktop.DBus",
        "org.mpris.MediaPlayer2.spotify",
        ":1.42",
        "org.mpris.MediaPlayer2.vlc",
        "org.mpris.MediaPlayer",
    ]);
    assert_eq!(
        get_player_interfaces(&all),
        names(&["org.mpris.MediaPlayer2.spotify", "org.mpris.MediaPlayer2.vlc"])
    );
    assert_eq!(get_player_interfaces(&Vec::new()), Vec::<String>::new());
}

#[test]
fn exists_checks_exact_name() {
    let ps = names(&["org.mpris.MediaPlayer2.a", "org.mpris.MediaPlayer2.b"]);
    assert!(player_exists(&ps, "org.mpris.MediaPlayer2.b"));
    assert!(!player_exists(&ps, "org.mpris.MediaPlayer2"));
    assert!(!player_exists(&Vec::new(), "x"));
}

#[test]
fn first_playing_is_chosen_and_saved() {
    let (r, read) = run(&["a", "b", "c"], &["Paused", "Playing", "Playing"], Some("c"));
    assert_eq!(r, Ok(("b".to_string(), true)));
    assert_eq!(read, 2);
}

#[test]
fn saved_player_kept_when_none_playing() {
    let (r, read) = run(&["a", "b", "c"], &["Paused", "Stopped", "Paused"], Some("c"));
    assert_eq!(r, Ok(("c".to_string(), false)));
    assert_eq!(read, 3);
}

#[test]
fn stale_saved_player_falls_back_to_first() {
    let (r, _) = run(&["a", "b"], &["Paused", "Paused"], Some("gone"));
    assert_eq!(r, Ok(("a".to_string(), false)));
    let (r, _) = run(&["a", "b"], &["Paused", "Paused"], None);
    assert_eq!(r, Ok(("a".to_string(), false)));
}

#[test]
fn no_players_fails() {
    let (r, read) = run(&[], &[], Some("a"));
    assert_eq!(r, Err(SelectError::NoPlayersFound));
    assert_eq!(read, 0);
    let first = next_step(&Vec::new(), &Vec::new(), &SavedPlayer::Found("a".to_string()));
    assert!(matches!(first, SelectionStep::Fail(SelectError::NoPlayersFound)));
}

#[test]
fn first_step_reads_first_status() {
    let ps = names(&["a", "b"]);
    assert!(matches!(
        next_step(&ps, &Vec::new(), &SavedPlayer::Unread),
        SelectionStep::ReadStatus(0)
    ));
}
