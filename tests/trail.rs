use gravsim::trail::Trail;

fn contents(t: &Trail<(f32, f32)>) -> Vec<(f32, f32)> {
    (0..t.len()).map(|i| *t.get(i)).collect()
}

#[test]
fn push_keeps_most_recent_last() {
    let mut t = Trail::new(3);
    t.push((1.0, 1.0));
    t.push((2.0, 2.0));
    assert_eq!(contents(&t), vec![(1.0, 1.0), (2.0, 2.0)]);
}

#[test]
fn push_beyond_capacity_drops_oldest() {
    let mut t = Trail::new(3);
    for i in 0..5 {
        t.push((i as f32, 0.0));
    }
    assert_eq!(contents(&t), vec![(2.0, 0.0), (3.0, 0.0), (4.0, 0.0)]);
}

#[test]
fn trail_never_exceeds_capacity() {
    let mut t = Trail::new(4);
    for i in 0..100 {
        t.push((i as f32, -(i as f32)));
        assert!(t.len() <= 4);
    }
    assert_eq!(t.len(), 4);
    assert_eq!(*t.get(3), (99.0, -99.0));
}

#[test]
fn zero_capacity_trail_stays_empty() {
    let mut t = Trail::new(0);
    for i in 0..10 {
        t.push((i as f32, 0.0));
        assert_eq!(t.len(), 0);
    }
}

#[test]
fn shrinking_capacity_drops_oldest() {
    let mut t = Trail::new(5);
    for i in 0..5 {
        t.push((i as f32, 0.0));
    }
    t.set_capacity(2);
    assert_eq!(t.capacity(), 2);
    assert_eq!(contents(&t), vec![(3.0, 0.0), (4.0, 0.0)]);
    t.set_capacity(0);
    assert_eq!(t.len(), 0);
}

#[test]
fn growing_capacity_keeps_positions() {
    let mut t = Trail::new(2);
    t.push((1.0, 0.0));
    t.push((2.0, 0.0));
    t.set_capacity(4);
    t.push((3.0, 0.0));
    assert_eq!(contents(&t), vec![(1.0, 0.0), (2.0, 0.0), (3.0, 0.0)]);
}

#[test]
fn prediction_trail_grows_without_bound() {
    let mut t = Trail::new(0);
    for i in 0..50 {
        t.extend((i as f32, 0.0));
    }
    assert_eq!(t.len(), 50);
    assert_eq!(t.capacity(), 50);
    assert_eq!(*t.get(0), (0.0, 0.0));
    t.clear();
    assert_eq!(t.len(), 0);
}

#[test]
fn record_applies_new_length_then_appends() {
    let mut t = Trail::new(5);
    for i in 0..5 {
        t.push((i as f32, 0.0));
    }
    t.record((5.0, 0.0), 3);
    assert_eq!(t.capacity(), 3);
    assert_eq!(contents(&t), vec![(3.0, 0.0), (4.0, 0.0), (5.0, 0.0)]);
    t.record((6.0, 0.0), 0);
    assert_eq!(t.len(), 0);
    t.record((7.0, 0.0), 10);
    assert_eq!(contents(&t), vec![(7.0, 0.0)]);
}
