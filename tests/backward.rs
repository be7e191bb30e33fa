use checkpoint_state::{BackwardStates, NodeID, State, StateContent, StateValue};

fn registered(id: NodeID, n: usize) -> BackwardStates {
    let mut states = BackwardStates::new();
    states.insert_state(id, State::Recompute { n_required: n });
    states
}

#[test]
fn two_uses_of_a_string() {
    let x = NodeID::new(1);
    let mut states = registered(x, 2);
    states.save(x, String::from("hello"));
    let first: String = states.get_state(&x);
    assert_eq!(first, "hello");
    assert_eq!(states.len(), 1);
    assert_eq!(states.get_state_ref(&x).unwrap().n_required(), 1);
    let second: String = states.get_state(&x);
    assert_eq!(second, "hello");
    assert_eq!(states.len(), 0);
}

#[test]
fn save_then_get_i64_once() {
    let n = NodeID::new(9);
    let mut states = registered(n, 1);
    states.save(n, 42i64);
    let v: i64 = states.get_state(&n);
    assert_eq!(v, 42i64);
    assert!(states.get_state_ref(&n).is_none());
    assert_eq!(states.len(), 0);
}

#[test]
fn save_keeps_the_counter() {
    let n = NodeID::new(3);
    let mut states = registered(n, 3);
    states.save(n, true);
    assert_eq!(
        states.get_state_ref(&n),
        Some(&State::Computed { state_content: StateContent::Bool(true), n_required: 3 })
    );
}

#[test]
fn each_use_lowers_the_counter_by_one() {
    let n = NodeID::new(4);
    let other = NodeID::new(5);
    let mut states = registered(n, 3);
    states.insert_state(other, State::Recompute { n_required: 1 });
    states.save(n, 7i64);
    let mut seen = Vec::new();
    for expected_left in [2usize, 1] {
        seen.push(states.get_state::<i64>(&n));
        assert_eq!(states.get_state_ref(&n).unwrap().n_required(), expected_left);
        assert_eq!(states.len(), 2);
    }
    seen.push(states.get_state::<i64>(&n));
    assert_eq!(seen, vec![7i64, 7, 7]);
    assert!(states.get_state_ref(&n).is_none());
    assert_eq!(states.len(), 1);
    assert_eq!(states.get_state_ref(&other), Some(&State::Recompute { n_required: 1 }));
}

fn left_side(x: i64) -> BackwardStates {
    let mut s = BackwardStates::new();
    s.insert_state(NodeID::new(1), State::Recompute { n_required: 2 });
    s.insert_state(
        NodeID::new(2),
        State::Computed { state_content: StateContent::Int(x), n_required: 1 },
    );
    s
}

fn right_side() -> BackwardStates {
    let mut s = BackwardStates::new();
    s.insert_state(NodeID::new(1), State::Recompute { n_required: 3 });
    s
}

fn assert_merged(s: &BackwardStates, x: i64) {
    assert_eq!(s.len(), 2);
    assert_eq!(s.get_state_ref(&NodeID::new(1)), Some(&State::Recompute { n_required: 5 }));
    assert_eq!(
        s.get_state_ref(&NodeID::new(2)),
        Some(&State::Computed { state_content: StateContent::Int(x), n_required: 1 })
    );
}

#[test]
fn merge_left_into_right_and_back() {
    let mut a = left_side(11);
    a.extend(right_side());
    assert_merged(&a, 11);

    let mut b = right_side();
    b.extend(left_side(11));
    assert_merged(&b, 11);
}

#[test]
fn merge_three_in_two_groupings() {
    let mut first = left_side(6);
    first.extend(right_side());
    first.extend(registered(NodeID::new(1), 4));

    let mut tail = right_side();
    tail.extend(registered(NodeID::new(1), 4));
    let mut second = left_side(6);
    second.extend(tail);

    for s in [&first, &second] {
        assert_eq!(s.get_state_ref(&NodeID::new(1)), Some(&State::Recompute { n_required: 9 }));
        assert_eq!(s.len(), 2);
    }
}

#[test]
fn merge_of_computed_states_keeps_the_payload_and_adds_uses() {
    let id = NodeID::new(8);
    let mut a = registered(id, 1);
    a.save(id, String::from("w"));
    let mut b = registered(id, 2);
    b.save(id, String::from("w"));
    a.extend(b);
    assert_eq!(
        a.get_state_ref(&id),
        Some(&State::Computed { state_content: StateContent::Text(String::from("w")), n_required: 3 })
    );
}

#[test]
fn extend_with_empty_store_changes_nothing() {
    let mut a = left_side(1);
    a.extend(BackwardStates::default());
    assert_eq!(a.len(), 2);
    let mut e = BackwardStates::default();
    e.extend(left_side(1));
    assert_eq!(e.len(), 2);
    assert_eq!(e.get_state_ref(&NodeID::new(1)), Some(&State::Recompute { n_required: 2 }));
}

#[test]
fn get_mut_adds_a_use() {
    let id = NodeID::new(2);
    let mut states = registered(id, 1);
    states.get_mut(&id).unwrap().increment();
    assert_eq!(states.get_state_ref(&id).unwrap().n_required(), 2);
    assert!(states.get_mut(&NodeID::new(99)).is_none());
    assert_eq!(states.len(), 1);
}

#[test]
fn insert_replaces_an_entry() {
    let id = NodeID::new(2);
    let mut states = registered(id, 4);
    states.insert_state(id, State::Recompute { n_required: 1 });
    assert_eq!(states.len(), 1);
    assert_eq!(states.get_state_ref(&id), Some(&State::Recompute { n_required: 1 }));
}

#[test]
fn unknown_node_has_no_state() {
    let states = BackwardStates::new();
    assert!(states.get_state_ref(&NodeID::new(0)).is_none());
    assert_eq!(states.len(), 0);
}

#[test]
fn state_counters_and_merge() {
    let mut r = State::Recompute { n_required: 2 };
    r.increment();
    assert_eq!(r.n_required(), 3);
    r.merge(State::Recompute { n_required: 4 });
    assert_eq!(r, State::Recompute { n_required: 7 });

    let mut c = State::Computed { state_content: StateContent::Int(1), n_required: 1 };
    c.merge(State::Computed { state_content: StateContent::Int(1), n_required: 2 });
    assert_eq!(c, State::Computed { state_content: StateContent::Int(1), n_required: 3 });
    assert_eq!(c.to_state_content(), &StateContent::Int(1));
    assert_eq!(c.into_state_content(), StateContent::Int(1));
}

#[test]
fn downcast_checks_the_kind() {
    assert_eq!(i64::from_content(StateContent::Int(-3)), Some(-3));
    assert_eq!(i64::from_content(StateContent::Bool(true)), None);
    assert_eq!(String::from_content_ref(&StateContent::Int(1)), None);
    assert_eq!(
        String::from_content_ref(&StateContent::Text(String::from("a"))),
        Some(String::from("a"))
    );
    assert_eq!(bool::from_content(StateContent::Text(String::new())), None);
    assert_eq!(bool::from_content(true.into_content()), Some(true));
    let c = StateContent::Text(String::from("copy"));
    assert_eq!(c.duplicate(), c);
}
