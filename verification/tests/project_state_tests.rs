use tubular::chord_degree::ChordDegree;
use tubular::chord_sequence::ChordSequence;
use tubular::project_state::ProjectState;
use tubular::project_time_info::ProjectTimeInfo;
use tubular::tatum::Tatum;

#[test]
fn update_chord_sequence_with_new_chord() {
    let mut project_state = ProjectState {
        chord_sequence: ChordSequence::default(),
        time: ProjectTimeInfo::default(),
    };
    let chord_pos = Tatum::try_from(0).unwrap();
    project_state.update_chord_sequence(chord_pos, Some(ChordDegree::II));
    assert_eq!(
        project_state.chord_sequence.get(chord_pos),
        Some(ChordDegree::II)
    );
}

#[test]
fn update_chord_sequence_with_removing_chord() {
    let mut project_state = ProjectState {
        chord_sequence: ChordSequence::new(Vec::from([Some(ChordDegree::II)])).unwrap(),
        time: ProjectTimeInfo::default(),
    };
    let chord_pos = Tatum::try_from(0).unwrap();
    project_state.update_chord_sequence(chord_pos, None);
    assert_eq!(project_state.chord_sequence.get(chord_pos), None);
}
