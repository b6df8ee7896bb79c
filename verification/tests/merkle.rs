use state_keeper::field::{Fr, Hasher};
use state_keeper::merkle::{empty_tree_root, pow2_u32, recover_root, Tree};

#[test]
fn powers_of_two() {
    assert_eq!(pow2_u32(0), 1);
    assert_eq!(pow2_u32(1), 2);
    assert_eq!(pow2_u32(7), 128);
    assert_eq!(pow2_u32(31), 0x8000_0000);
}

#[test]
fn new_tree_has_default_leaves() {
    let h = Hasher::new();
    let d = Fr::from_u32(9);
    let t = Tree::new(&h, 3, d);
    assert_eq!(t.height(), 3);
    assert_eq!(t.max_leaf_num(), 8);
    for i in 0..8 {
        assert_eq!(t.get_leaf(i), d);
    }
    let l1 = h.hash_pair(d, d);
    let l2 = h.hash_pair(l1, l1);
    let l3 = h.hash_pair(l2, l2);
    assert_eq!(t.get_root(), l3);
    assert_eq!(empty_tree_root(&h, 3, d), l3);
    assert_eq!(empty_tree_root(&h, 0, d), d);
}

#[test]
fn tree_of_height_zero_is_one_leaf() {
    let h = Hasher::new();
    let mut t = Tree::new(&h, 0, Fr::zero());
    assert_eq!(t.max_leaf_num(), 1);
    assert_eq!(t.get_root(), Fr::zero());
    t.set_value(&h, 0, Fr::from_u32(4));
    assert_eq!(t.get_root(), Fr::from_u32(4));
    let p = t.get_proof(0);
    assert_eq!(p.path_elements.len(), 0);
    assert_eq!(p.leaf, Fr::from_u32(4));
    assert_eq!(p.root, Fr::from_u32(4));
}

#[test]
fn set_value_gives_the_root_of_the_leaf_vector() {
    let h = Hasher::new();
    let z = Fr::zero();
    let mut t = Tree::new(&h, 2, z);
    let a = Fr::from_u32(11);
    let b = Fr::from_u32(22);
    t.set_value(&h, 1, a);
    t.set_value(&h, 2, b);
    assert_eq!(t.get_leaf(0), z);
    assert_eq!(t.get_leaf(1), a);
    assert_eq!(t.get_leaf(2), b);
    assert_eq!(t.get_leaf(3), z);
    let expected = h.hash_pair(h.hash_pair(z, a), h.hash_pair(b, z));
    assert_eq!(t.get_root(), expected);
    // writing the same value again changes nothing
    t.set_value(&h, 1, a);
    assert_eq!(t.get_root(), expected);
    // writing the default value back gives the empty tree again
    t.set_value(&h, 1, z);
    t.set_value(&h, 2, z);
    assert_eq!(t.get_root(), empty_tree_root(&h, 2, z));
}

#[test]
fn proof_holds_the_siblings_from_the_leaf_up() {
    let h = Hasher::new();
    let z = Fr::zero();
    let mut t = Tree::new(&h, 2, z);
    let a = Fr::from_u32(11);
    let b = Fr::from_u32(22);
    t.set_value(&h, 1, a);
    t.set_value(&h, 2, b);
    let p = t.get_proof(1);
    assert_eq!(p.leaf, a);
    assert_eq!(p.root, t.get_root());
    assert_eq!(p.path_elements, vec![[z], [h.hash_pair(b, z)]]);
    let q = t.get_proof(2);
    assert_eq!(q.path_elements, vec![[z], [h.hash_pair(z, a)]]);
}

#[test]
fn every_proof_recombines_to_the_root() {
    let h = Hasher::new();
    let mut t = Tree::new(&h, 4, Fr::from_u32(1));
    for i in [0u32, 3, 7, 8, 15] {
        t.set_value(&h, i, Fr::from_u32(100 + i));
    }
    let root = t.get_root();
    for i in 0..16 {
        let p = t.get_proof(i);
        assert_eq!(p.root, root);
        assert_eq!(recover_root(&h, p.leaf, &p.path_elements, i), root);
    }
    let p = t.get_proof(7);
    assert_ne!(recover_root(&h, p.leaf, &p.path_elements, 6), root);
    assert_ne!(recover_root(&h, Fr::from_u32(2), &p.path_elements, 7), root);
}

#[test]
fn the_path_of_a_leaf_does_not_depend_on_the_leaf() {
    let h = Hasher::new();
    let mut t = Tree::new(&h, 3, Fr::zero());
    t.set_value(&h, 2, Fr::from_u32(5));
    let before = t.get_proof(6);
    t.set_value(&h, 6, Fr::from_u32(77));
    let after = t.get_proof(6);
    assert_eq!(before.path_elements, after.path_elements);
    assert_ne!(before.root, after.root);
    assert_eq!(recover_root(&h, Fr::from_u32(77), &before.path_elements, 6), after.root);
}
