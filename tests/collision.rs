use gravsim::collision::{assemble, plan_merges, Slot};

fn table(n: usize, pairs: &[(usize, usize)]) -> Vec<Vec<bool>> {
    let mut ov = vec![vec![false; n]; n];
    for &(i, j) in pairs {
        ov[i][j] = true;
        ov[j][i] = true;
    }
    ov
}

fn each_body_once(plan: &[Slot], n: usize) -> bool {
    let mut seen = vec![0usize; n];
    for s in plan {
        match *s {
            Slot::Keep(a) => seen[a] += 1,
            Slot::Merge(a, b) => {
                seen[a] += 1;
                seen[b] += 1;
            }
        }
    }
    seen.iter().all(|&c| c == 1)
}

#[test]
fn three_mutually_overlapping_bodies_merge_once() {
    let plan = plan_merges(&table(3, &[(0, 1), (0, 2), (1, 2)]));
    assert_eq!(plan, vec![Slot::Merge(0, 1), Slot::Keep(2)]);
    let merges = plan.iter().filter(|s| matches!(s, Slot::Merge(_, _))).count();
    assert_eq!(merges, 1);
    assert!(each_body_once(&plan, 3));
}

#[test]
fn apart_bodies_all_kept() {
    let plan = plan_merges(&table(4, &[]));
    assert_eq!(plan, vec![Slot::Keep(0), Slot::Keep(1), Slot::Keep(2), Slot::Keep(3)]);
}

#[test]
fn empty_population_gives_empty_plan() {
    assert_eq!(plan_merges(&Vec::new()), Vec::new());
}

#[test]
fn chain_of_overlaps_merges_first_pair_only() {
    let plan = plan_merges(&table(3, &[(0, 1), (1, 2)]));
    assert_eq!(plan, vec![Slot::Merge(0, 1), Slot::Keep(2)]);
}

#[test]
fn consumed_body_is_skipped_and_later_pair_merges() {
    let plan = plan_merges(&table(4, &[(0, 2), (1, 2), (1, 3)]));
    assert_eq!(plan, vec![Slot::Merge(0, 2), Slot::Merge(1, 3)]);
    assert!(each_body_once(&plan, 4));
}

#[test]
fn lowest_free_partner_is_taken() {
    let plan = plan_merges(&table(5, &[(1, 4), (1, 3), (0, 3), (2, 4)]));
    assert_eq!(plan, vec![Slot::Merge(0, 3), Slot::Merge(1, 4), Slot::Keep(2)]);
    assert!(each_body_once(&plan, 5));
}

#[test]
fn dense_overlap_pairs_in_order() {
    let mut pairs = Vec::new();
    for i in 0..7 {
        for j in (i + 1)..7 {
            pairs.push((i, j));
        }
    }
    let plan = plan_merges(&table(7, &pairs));
    assert_eq!(
        plan,
        vec![Slot::Merge(0, 1), Slot::Merge(2, 3), Slot::Merge(4, 5), Slot::Keep(6)]
    );
}

#[test]
fn assemble_builds_one_body_per_slot() {
    let plan = plan_merges(&table(4, &[(0, 2), (1, 2)]));
    assert_eq!(plan, vec![Slot::Merge(0, 2), Slot::Keep(1), Slot::Keep(3)]);
    let masses = [1.5f32, 2.0, 3.0, 4.0];
    let next = assemble(&plan, |i| masses[i], |i, j| masses[i] + masses[j]);
    assert_eq!(next, vec![4.5, 2.0, 4.0]);
    let total: f32 = next.iter().sum();
    assert_eq!(total, masses.iter().sum::<f32>());
}

#[test]
fn assemble_of_empty_plan_is_empty() {
    let next: Vec<u32> = assemble(&Vec::new(), |i| i as u32, |i, j| (i + j) as u32);
    assert!(next.is_empty());
}
