use r1cs_circuits::circuit::{Circuit, Gate};
use r1cs_circuits::field::FieldElement;
use r1cs_circuits::hash_functions::{HashFunction, PoseidonHash};
use r1cs_circuits::merkle_tree::MerkleTree;

fn leaves(values: &[i32]) -> Vec<FieldElement> {
    values.iter().map(|v| FieldElement::from_i32(*v)).collect()
}

#[test]
fn four_leaf_round_trip() {
    let h = PoseidonHash::new();
    let ls = leaves(&[1001, 2002, 3003, 4004]);
    let tree = MerkleTree::new(ls.clone());

    let path = tree.get_proof(1);
    assert_eq!(path.len(), 2);
    // Sibling of index 1 at level 0 is leaf 0; at level 1 it is the hash of
    // leaves 2 and 3.
    assert_eq!(path[0], ls[0]);
    assert_eq!(path[1], h.hash(&ls[2], &ls[3]));

    // Index 1 is odd (right child), then index 0 is even (left child).
    let up = h.hash(&path[0], &ls[1]);
    let recomputed = h.hash(&up, &path[1]);
    assert_eq!(recomputed, tree.get_root());
}

#[test]
fn three_leaf_tree_duplicates_the_odd_tail()
{
    let h = PoseidonHash::new();
    let ls = leaves(&[1, 2, 3]);
    let tree = MerkleTree::new(ls.clone());

    assert_eq!(tree.levels.len(), 3);
    assert_eq!(tree.levels[1].len(), 2);
    assert_eq!(tree.levels[1][0], h.hash(&ls[0], &ls[1]));
    assert_eq!(tree.levels[1][1], h.hash(&ls[2], &ls[2]));

    let path = tree.get_proof(2);
    assert_eq!(path.len(), 2);
    // Index 2 has no right neighbour at level 0, so it is its own sibling.
    assert_eq!(path[0], ls[2]);
    assert_eq!(path[1], h.hash(&ls[0], &ls[1]));

    // Index 2 is even at level 0 (left side), index 1 at level 1 is odd
    // (right side), so the second sibling hashes on the left.
    let up = h.hash(&ls[2], &path[0]);
    let recomputed = h.hash(&path[1], &up);
    assert_eq!(recomputed, tree.get_root());
}

#[test]
fn single_leaf_tree_has_the_leaf_as_root() {
    let ls = leaves(&[77]);
    let tree = MerkleTree::new(ls.clone());
    assert_eq!(tree.get_root(), ls[0]);
    assert_eq!(tree.get_proof(0).len(), 0);
}

#[test]
fn root_is_the_last_level_alone() {
    let ls = leaves(&[5, 6]);
    let tree = MerkleTree::new(ls.clone());
    assert_eq!(tree.levels.len(), 2);
    assert_eq!(tree.levels[1].len(), 1);
    assert_eq!(tree.get_root(), tree.levels[1][0]);
    assert_eq!(tree.get_root(), PoseidonHash::new().hash(&ls[0], &ls[1]));
}

#[test]
fn proof_feeds_a_hash_gate_circuit() {
    // The Merkle path of a leaf, fed into a circuit as a chain of hash
    // gates, reproduces the tree root in the last witness slot.
    let h = PoseidonHash::new();
    let ls = leaves(&[1001, 2002, 3003, 4004]);
    let tree = MerkleTree::new(ls.clone());
    let path = tree.get_proof(1);

    let mut circuit = Circuit::new(Some(PoseidonHash::new()));
    let leaf_idx = circuit.add_input(ls[1].clone());
    let sib0_idx = circuit.add_input(path[0].clone());
    let sib1_idx = circuit.add_input(path[1].clone());
    let inter = h.hash(&path[0], &ls[1]);
    let inter_idx = circuit.add_input(inter.clone());
    let root_idx = circuit.add_input(h.hash(&inter, &path[1]));

    // Index 1 is a right child: hash(sibling, leaf); then a left child:
    // hash(current, sibling).
    circuit.add_gate(Gate::Hash(sib0_idx, leaf_idx, inter_idx));
    circuit.add_gate(Gate::Hash(inter_idx, sib1_idx, root_idx));

    let rc = circuit.compile().expect("circuit compiles");
    assert_eq!(rc.variables[root_idx].value, tree.get_root());
    assert_eq!(circuit.generate_proof(), Ok(true));
}
