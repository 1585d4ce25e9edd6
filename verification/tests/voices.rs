use love_api::voices::VoiceSet;

/// What a play command does: an existing voice keeps its position.
fn play(voices: &mut VoiceSet<f64>, id: u64) {
    if !voices.playing(id) {
        voices.start(id, 0.0);
    }
}

#[test]
fn play_keeps_an_existing_voices_position() {
    let mut voices = VoiceSet::new();
    play(&mut voices, 1);
    *voices.voice_mut(0) = 2.0;
    play(&mut voices, 1);
    assert_eq!(voices.len(), 1, "play rewound an existing source");
    assert_eq!(*voices.voice_mut(0), 2.0);
    voices.stop(1);
    play(&mut voices, 1);
    assert_eq!(*voices.voice_mut(0), 0.0, "a stopped source did not restart");
}

#[test]
fn stopping_keeps_the_other_voices_in_order() {
    let mut voices = VoiceSet::new();
    for id in [3, 5, 7] {
        play(&mut voices, id);
    }
    voices.stop(5);
    voices.stop(9);
    assert_eq!((voices.len(), voices.id_at(0), voices.id_at(1)), (2, 3, 7));
    voices.remove_at(0);
    assert_eq!((voices.len(), voices.id_at(0)), (1, 7));
    voices.stop_all();
    assert_eq!(voices.len(), 0);
    assert!(!voices.playing(7));
}

#[test]
fn stopping_a_source_leaves_every_other_source_its_own_voice() {
    let mut voices = VoiceSet::new();
    for (id, position) in [(3, 30.0), (5, 50.0), (7, 70.0)] {
        voices.start(id, position);
    }
    voices.stop(3);
    assert_eq!((voices.id_at(0), *voices.voice_mut(0)), (5, 50.0));
    assert_eq!((voices.id_at(1), *voices.voice_mut(1)), (7, 70.0));
    voices.stop(4);
    assert_eq!((voices.len(), *voices.voice_mut(0), *voices.voice_mut(1)), (2, 50.0, 70.0));
}

#[test]
fn only_registered_sources_without_a_voice_start() {
    let mut voices = VoiceSet::new();
    assert!(voices.should_start(4, true));
    assert!(!voices.should_start(4, false));
    voices.start(4, 0.0);
    assert!(!voices.should_start(4, true));
    assert!(voices.should_start(5, true));
}
