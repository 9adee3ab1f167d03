use ringchain::{Block, BlockID, Seed, ID_SHORT_LEN};

fn hex(bytes: &[u8]) -> String {
    bytes.iter().map(|b| format!("{:02x}", b)).collect()
}

#[test]
fn new_block_has_zero_seed_and_given_data() {
    let b = Block::new(vec![1, 2, 3]);
    assert_eq!(b.get_seed().0, [0u8; 32]);
    assert_eq!(b.get_data(), &vec![1, 2, 3]);
    assert_eq!(b.get_ack(), 0);
    assert!(b.verify());
}

#[test]
fn hash_of_empty_first_block_is_sha256_of_zero_seed() {
    let b = Block::new(vec![]);
    assert_eq!(
        hex(&b.hash().0),
        "66687aadf862bd776c8fc18b8e9f8e20089714856ee233b3902a591d0d5f2925"
    );
}

#[test]
fn hash_covers_data_then_seed() {
    let b = Block::new(vec![1, 2, 3]);
    assert_eq!(
        hex(&b.hash().0),
        "a25945c851dcb2096b9f2de1e99729987f49136f6cbe2880d82576c0884dffbe"
    );
}

#[test]
fn next_seed_is_digest_of_previous_seed() {
    let b = Block::new(vec![9]);
    let n = b.next(vec![1, 2, 3]);
    assert_eq!(
        hex(&n.get_seed().0),
        "66687aadf862bd776c8fc18b8e9f8e20089714856ee233b3902a591d0d5f2925"
    );
    assert_eq!(n.get_data(), &vec![1, 2, 3]);
    assert_eq!(n.get_ack(), 0);
    assert_eq!(
        hex(&n.hash().0),
        "b4c21d81abb46fa91530324e096a888e3363b2c4fd83f5667d8b5b891973c1b1"
    );
    let nn = n.next(vec![]);
    assert_eq!(
        hex(&nn.get_seed().0),
        "2b32db6c2c0a6235fb1397e8225ea85e0f0e6e8c7b126d0016ccbde0e667151e"
    );
}

#[test]
fn short_id_shows_first_four_bytes_in_hex() {
    let b = Block::new(vec![]);
    assert_eq!(ID_SHORT_LEN, 4);
    assert_eq!(b.hash().to_string(), "66687aad");
    let mut bytes = [0u8; 32];
    bytes[0] = 0x0a;
    bytes[1] = 0xff;
    bytes[3] = 0x10;
    bytes[4] = 0x77;
    assert_eq!(BlockID(bytes).to_string(), "0aff0010");
}

#[test]
fn ids_compare_by_bytes() {
    let a = Block::new(vec![1]).hash();
    let b = Block::new(vec![1]).hash();
    let c = Block::new(vec![2]).hash();
    assert!(a == b);
    assert!(a != c);
    let mut bytes = [7u8; 32];
    let x = BlockID(bytes);
    bytes[31] = 8;
    assert!(x != BlockID(bytes));
}

#[test]
fn seeds_compare_by_bytes() {
    assert!(Seed([1u8; 32]) == Seed([1u8; 32]));
    assert!(Seed([1u8; 32]) != Seed([2u8; 32]));
    let first = Block::new(vec![]);
    assert!(first.next(vec![1]).get_seed() == first.next(vec![2]).get_seed());
}

#[test]
fn acknowledgements_count_each_peer_once() {
    let mut b = Block::new(vec![4]);
    b.incr_ack(2);
    b.incr_ack(0);
    b.incr_ack(2);
    assert_eq!(b.get_ack(), 2);
    let mut acks = b.get_acks();
    acks.sort();
    assert_eq!(acks, vec![0, 2]);
}

#[test]
fn acknowledgements_do_not_change_the_id() {
    let mut b = Block::new(vec![5, 6]);
    let before = b.hash();
    b.incr_ack(1);
    assert!(b.hash() == before);
}

#[test]
fn clone_keeps_everything() {
    let mut b = Block::new(vec![5, 6]).next(vec![7]);
    b.incr_ack(3);
    let c = b.clone();
    assert_eq!(c.get_seed().0, b.get_seed().0);
    assert_eq!(c.get_data(), b.get_data());
    assert_eq!(c.get_acks(), b.get_acks());
}

#[test]
fn from_parts_drops_repeated_acknowledgements() {
    let b = Block::from_parts(Seed([3u8; 32]), vec![1], vec![1, 1, 4]);
    assert_eq!(b.get_seed().0, [3u8; 32]);
    assert_eq!(b.get_ack(), 2);
}
