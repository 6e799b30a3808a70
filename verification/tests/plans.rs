//! Random contents, trees and cases.

use rustic_faults::error::{BackendCall, BackendOp};
use rustic_faults::fault::Fault;
use rustic_faults::file_type::FileType;
use rustic_faults::plan::{
    Case, DestFault, FaultPlan, FaultRule, Faults, Step, Trigger, BACKUP_CALLS,
};
use rustic_faults::rng::{content, Rng, Time};
use rustic_faults::tree_spec::{
    FileSpec, HardLinkSpec, LinkSpec, Location, TreeOp, TreeSpec, Unreadable,
};

const ALL: Faults = Faults { unreadable: true, read_only: true, volume: false };

#[test]
fn contents_have_fixed_bytes() {
    assert_eq!(content(0, 12), vec![0, 0, 16, 155, 245, 134, 246, 162, 198, 125, 115, 28]);
    assert_eq!(content(1, 12), vec![158, 220, 100, 123, 48, 44, 151, 154, 217, 221, 143, 8]);
    assert_eq!(content(5, 12), vec![23, 190, 28, 248, 95, 178, 107, 92, 95, 190, 183, 142]);
    assert!(content(1, 0).is_empty());
}

#[test]
fn the_same_seed_gives_the_same_content() {
    assert_eq!(content(77, 5_000), content(77, 5_000));
    assert_eq!(content(77, 100)[..], content(77, 5_000)[..100]);
}

#[test]
fn different_seeds_give_different_contents() {
    for a in 0..60 {
        for b in 0..a {
            assert_ne!(content(a, 9), content(b, 9));
        }
    }
}

#[test]
fn the_generator_has_fixed_values() {
    let mut rng = Rng::new(0x601);
    let values: Vec<u64> = (0..4).map(|_| rng.next_u64()).collect();
    assert_eq!(
        values,
        vec![
            5_365_941_766_213_447_006,
            14_121_087_290_451_431_318,
            4_929_388_260_237_886_243,
            10_974_247_725_364_399_016,
        ]
    );
    let mut rng = Rng::new(1);
    let values: Vec<usize> = (0..8).map(|_| rng.below(100)).collect();
    assert_eq!(values, vec![74, 77, 46, 11, 93, 99, 36, 78]);
    assert_eq!(rng.time(), Time { secs: 1_602_127_773, nanos: 167_716_012 });
}

#[test]
fn picks_and_chances_follow_the_values() {
    let (mut a, mut b) = (Rng::new(9), Rng::new(9));
    let values = [10, 20, 30];
    for _ in 0..50 {
        assert_eq!(a.pick(&values), values[b.below(3)]);
        assert_eq!(a.chance(1, 4), b.below(4) < 1);
    }
}

fn file(dir: Location, len: usize, seed: u64, mode: u32, secs: u64, nanos: u32) -> FileSpec {
    FileSpec { dir, len, seed, mode, mtime: Time { secs, nanos } }
}

#[test]
fn a_seed_gives_a_fixed_tree() {
    let tree = TreeSpec::generate(&mut Rng::new(0x601), true);
    assert_eq!(
        tree.files,
        vec![
            file(Location::Dir(1), 3_114, 7_419_180_088_849_098_295, 0o644, 1_657_411_431, 943_876_668),
            file(Location::Root, 3_039, 5_660_312_589_609_193_477, 0o444, 1_629_594_577, 460_650_641),
            file(Location::Dir(1), 510, 7_481_650_791_889_499_544, 0o444, 1_625_377_976, 853_288_670),
            file(Location::Root, 550_244, 389_135_746_188_603_794, 0o644, 1_696_887_492, 763_266_571),
        ]
    );
    let links: Vec<(Location, &str)> =
        tree.links.iter().map(|link| (link.dir, link.target)).collect();
    assert_eq!(links, vec![(Location::Dir(1), "d0"), (Location::Dir(2), "missing")]);
    assert_eq!(tree.hard_link, Some(HardLinkSpec { dir: Location::Dir(2), file: 2 }));
    assert_eq!(tree.dir_modes, [0o555, 0o700, 0o700]);
    assert_eq!(tree.dir_mtimes[2], Time { secs: 1_614_658_137, nanos: 314_658_030 });
    assert_eq!(tree.unreadable, None);
    assert_eq!(tree.file_path(0), "d0/d1/f0");
    assert_eq!(tree.file_path(1), "f1");
}

#[test]
fn trees_stay_in_their_limits() {
    let mut unreadable = 0;
    for seed in 0..300 {
        let tree = TreeSpec::generate(&mut Rng::new(seed), true);
        assert!((1..=8).contains(&tree.files.len()));
        assert!(tree.links.len() <= 2);
        match tree.unreadable {
            Some(Unreadable::File(index)) => assert!(index < tree.files.len()),
            Some(Unreadable::Dir(index)) => assert!(index < 3),
            None => {}
        }
        unreadable += usize::from(tree.unreadable.is_some());
        assert_eq!(TreeSpec::generate(&mut Rng::new(seed), false).unreadable, None);
    }
    assert!(unreadable > 0);
}

#[test]
fn a_tree_is_written_in_a_fixed_order() {
    let time = |secs| Time { secs, nanos: 0 };
    let tree = TreeSpec {
        files: vec![file(Location::Dir(0), 5, 6, 0o600, 7, 0)],
        links: vec![LinkSpec { dir: Location::Root, target: "f0" }],
        hard_link: Some(HardLinkSpec { dir: Location::Dir(2), file: 0 }),
        dir_modes: [0o755, 0o700, 0o555],
        dir_mtimes: [time(1), time(2), time(3)],
        unreadable: Some(Unreadable::Dir(1)),
    };
    let ops: Vec<String> = tree.write().iter().map(|op| format!("{op:?}")).collect();
    let op = |op: TreeOp| format!("{op:?}");
    let text = |text: &str| text.to_string();
    let mtime = |path: &str, mtime| op(TreeOp::SetMtime { path: text(path), mtime });
    let mode = |path: &str, mode| op(TreeOp::SetMode { path: text(path), mode });
    assert_eq!(
        ops,
        vec![
            op(TreeOp::CreateDir { path: "d0" }),
            op(TreeOp::CreateDir { path: "d0/d1" }),
            op(TreeOp::CreateDir { path: "d2" }),
            op(TreeOp::WriteFile { path: text("d0/f0"), seed: 6, len: 5 }),
            mtime("d0/f0", time(7)),
            mode("d0/f0", 0o600),
            op(TreeOp::HardLink { file: text("d0/f0"), path: text("d2/h") }),
            op(TreeOp::Symlink { target: "f0", path: text("l0") }),
            mtime("d2", time(3)),
            mode("d2", 0o555),
            mtime("d0/d1", time(2)),
            mode("d0/d1", 0o700),
            mtime("d0", time(1)),
            mode("d0", 0o755),
            mode("d0/d1", 0),
        ]
    );
}

#[test]
fn a_tree_with_an_unreadable_file_hides_it_last() {
    let mut tree = TreeSpec::generate(&mut Rng::new(0x601), false);
    tree.unreadable = Some(Unreadable::File(1));
    let ops = tree.write();
    match ops.last() {
        Some(TreeOp::SetMode { path, mode: 0 }) => assert_eq!(path, "f1"),
        other => panic!("{other:?}"),
    }
}

#[test]
fn a_seed_gives_a_fixed_case() {
    let case = Case::generate(&mut Rng::new(0x601), ALL);
    let rule = |op, tpe, fault, trigger| FaultRule { op, tpe: Some(tpe), fault, trigger };
    assert_eq!(
        case.init,
        vec![
            rule(BackendOp::List, FileType::Config, Fault::Corrupt, Trigger::From(2)),
            rule(BackendOp::Write, FileType::Config, Fault::Error, Trigger::From(2)),
        ]
    );
    assert_eq!(case.steps.len(), 4);
    match &case.steps[0] {
        Step::Backup { tree, faults } => {
            assert_eq!(tree.files.len(), 8);
            assert!(faults.is_empty());
            assert_eq!(tree.unreadable, None);
        }
        other => panic!("{other:?}"),
    }
    match &case.steps[1] {
        Step::Restore { pick, threads, dest, faults } => {
            assert_eq!((*pick, *threads), (1_816_569_337, Some(4)));
            assert_eq!(*dest, DestFault::ReadOnlyDir(3));
            assert!(faults.is_empty());
        }
        other => panic!("{other:?}"),
    }
    match &case.steps[3] {
        Step::Restore { threads, dest, faults, .. } => {
            assert_eq!((*threads, *dest), (Some(2), DestFault::Nothing));
            assert_eq!(
                *faults,
                vec![FaultRule {
                    op: BackendOp::ReadFull,
                    tpe: None,
                    fault: Fault::Corrupt,
                    trigger: Trigger::From(0),
                }]
            );
        }
        other => panic!("{other:?}"),
    }
}

#[test]
fn a_case_can_have_each_step() {
    let case = Case::generate(&mut Rng::new(0x602), ALL);
    let kinds: Vec<&str> = case
        .steps
        .iter()
        .map(|step| match step {
            Step::Backup { .. } => "backup",
            Step::Restore { .. } => "restore",
            Step::Delete { .. } => "delete",
            Step::Prune { .. } => "prune",
        })
        .collect();
    assert_eq!(kinds, vec!["backup", "prune", "restore", "backup", "backup", "delete"]);
    match &case.steps[5] {
        Step::Delete { pick, faults } => {
            assert_eq!(*pick, 785_454_218);
            assert_eq!(faults[0].op, BackendOp::Remove);
            assert_eq!(faults[0].tpe, None);
            assert_eq!(faults[0].fault, Fault::Corrupt);
            assert_eq!(faults[0].trigger, Trigger::Nth(0));
        }
        other => panic!("{other:?}"),
    }
}

#[test]
fn small_volumes_come_only_with_their_option() {
    let volumes = Faults { unreadable: false, read_only: false, volume: true };
    let case = Case::generate(&mut Rng::new(0x601), volumes);
    match &case.steps[2] {
        Step::Restore { dest, .. } => assert_eq!(*dest, DestFault::Volume(131_072)),
        other => panic!("{other:?}"),
    }
    match &case.steps[3] {
        Step::Restore { dest, threads, .. } => {
            assert_eq!((*dest, *threads), (DestFault::Volume(258_048), Some(1)));
        }
        other => panic!("{other:?}"),
    }
    for seed in 0..200 {
        for step in Case::generate(&mut Rng::new(seed), ALL).steps {
            if let Step::Restore { dest, .. } = step {
                assert!(!matches!(dest, DestFault::Volume(_)));
            }
        }
    }
}

#[test]
fn the_same_seed_gives_the_same_case() {
    for seed in 0..50 {
        let case = |seed| format!("{:?}", Case::generate(&mut Rng::new(seed), ALL));
        assert_eq!(case(seed), case(seed));
    }
}

#[test]
fn plans_have_rules_for_their_calls() {
    for seed in 0..300 {
        let rules = FaultRule::generate_plan(&mut Rng::new(seed), &BACKUP_CALLS);
        assert!(rules.len() <= 2);
        for rule in rules {
            assert!(BACKUP_CALLS
                .iter()
                .any(|(op, tpe)| *op == rule.op && rule.tpe.is_none_or(|t| t == *tpe)));
        }
    }
}

fn call(op: BackendOp, tpe: FileType) -> BackendCall {
    BackendCall { op, tpe, id: None }
}

#[test]
fn a_rule_counts_only_matching_calls() {
    let rule = FaultRule {
        op: BackendOp::Write,
        tpe: Some(FileType::Pack),
        fault: Fault::Error,
        trigger: Trigger::Nth(1),
    };
    let mut count = 0;
    let pack = call(BackendOp::Write, FileType::Pack);
    assert_eq!(rule.fault_for(&pack, &mut count), None);
    assert_eq!(rule.fault_for(&call(BackendOp::Write, FileType::Index), &mut count), None);
    assert_eq!(rule.fault_for(&call(BackendOp::Remove, FileType::Pack), &mut count), None);
    assert_eq!(count, 1);
    assert_eq!(rule.fault_for(&pack, &mut count), Some(Fault::Error));
    assert_eq!(rule.fault_for(&pack, &mut count), None);
    assert_eq!(count, 3);
    let mut last = usize::MAX;
    assert_eq!(rule.fault_for(&pack, &mut last), None);
    assert_eq!(last, 0);
}

#[test]
fn a_rule_from_a_call_on_hits_each_later_call() {
    let rule = FaultRule {
        op: BackendOp::List,
        tpe: None,
        fault: Fault::Corrupt,
        trigger: Trigger::From(1),
    };
    let mut count = 0;
    let faults: Vec<Option<Fault>> = [FileType::Config, FileType::Pack, FileType::Index]
        .iter()
        .map(|tpe| rule.fault_for(&call(BackendOp::List, *tpe), &mut count))
        .collect();
    assert_eq!(faults, vec![None, Some(Fault::Corrupt), Some(Fault::Corrupt)]);
}

#[test]
fn the_first_rule_with_a_fault_hides_the_later_rules() {
    let rule = |fault, trigger| FaultRule { op: BackendOp::List, tpe: None, fault, trigger };
    let mut plan = FaultPlan::new(&vec![
        rule(Fault::Error, Trigger::Nth(1)),
        rule(Fault::Truncate, Trigger::Nth(1)),
    ]);
    let list = call(BackendOp::List, FileType::Index);
    // The second rule does not see the call that the first rule hits.
    assert_eq!(plan.fault_for(&list), None);
    assert_eq!(plan.fault_for(&list), Some(Fault::Error));
    assert_eq!(plan.fault_for(&list), Some(Fault::Truncate));
    assert_eq!(plan.fault_for(&list), None);
}
