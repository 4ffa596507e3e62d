use readset::filing::{forget_steps, remove_steps, FileOp};
use readset::readset::EvalId;
use readset::witness::DirWitness;

fn removed(steps: &[FileOp]) -> Vec<String> {
    steps
        .iter()
        .map(|step| match step {
            FileOp::Remove(name) => name.clone(),
            _ => panic!("forgetting only removes"),
        })
        .collect()
}

#[test]
fn forgetting_removes_each_witness_before_the_file_beside_it() {
    let dir = DirWitness::open("/cache/witness".to_owned());
    let slots: Vec<EvalId> =
        (0..4).map(|n| EvalId { key: readset::digest::Hash::from_bytes([n; 32]) }).collect();
    let mut expected = Vec::new();
    for slot in &slots {
        expected.push(dir.path(slot));
        expected.push(dir.refs_path(slot));
        assert_eq!(removed(&remove_steps(&dir, slot)), expected[expected.len() - 2..]);
    }
    assert_eq!(removed(&forget_steps(&dir, &slots)), expected);
    assert!(forget_steps(&dir, &Vec::new()).is_empty());
}
