use blockchain::hashing::sha256;
use blockchain::merkle::merkle_root;

fn leaf(b: u8) -> Vec<u8> {
    sha256(&[b]).unwrap()
}

fn join(l: &[u8], r: &[u8]) -> Vec<u8> {
    let mut data = l.to_vec();
    data.extend_from_slice(r);
    sha256(&data).unwrap()
}

#[test]
fn no_leaf_gives_the_empty_root() {
    assert_eq!(merkle_root(&Vec::new()), Some(Vec::new()));
}

#[test]
fn one_leaf_is_its_own_root() {
    assert_eq!(merkle_root(&vec![leaf(1)]), Some(leaf(1)));
}

#[test]
fn two_leaves_are_joined() {
    let root = merkle_root(&vec![leaf(1), leaf(2)]).unwrap();
    assert_eq!(root, join(&leaf(1), &leaf(2)));
    assert_ne!(root, leaf(1));
}

#[test]
fn three_leaves_put_the_first_leaf_on_the_right() {
    let root = merkle_root(&vec![leaf(1), leaf(2), leaf(3)]).unwrap();
    assert_eq!(root, join(&join(&leaf(2), &leaf(3)), &leaf(1)));
}

#[test]
fn five_leaves() {
    let l: Vec<Vec<u8>> = (1..=5).map(leaf).collect();
    let n3 = join(&l[3], &l[4]);
    let n2 = join(&l[1], &l[2]);
    let n1 = join(&n3, &l[0]);
    let root = join(&n1, &n2);
    assert_eq!(merkle_root(&l), Some(root));
}

#[test]
fn a_leaf_of_another_length_is_refused() {
    assert_eq!(merkle_root(&vec![leaf(1), vec![0; 31]]), None);
    assert_eq!(merkle_root(&vec![vec![0; 33]]), None);
}
