//! The lottery block store and its request handler.
use chagpt::eth::{block, fetch, insert_block, parse_block, Block, BlockRequest, BlockStore};
use chagpt::hub::{Hub, Output};

fn sample(height: u32, time: u64) -> Block {
    Block { hash: format!("hash{height}").into_bytes(), height, time }
}

#[test]
fn insert_keeps_order_and_replaces() {
    let mut store = BlockStore::new();
    insert_block(&mut store, sample(5, 50));
    insert_block(&mut store, sample(3, 30));
    insert_block(&mut store, sample(7, 70));
    assert_eq!(store.blocks.len(), 3);
    assert_eq!(store.blocks[0].height, 3);
    assert_eq!(store.blocks[1].height, 5);
    assert_eq!(store.blocks[2].height, 7);
    // Inserting at an existing height replaces that block.
    insert_block(&mut store, Block { hash: b"other".to_vec(), height: 5, time: 55 });
    assert_eq!(store.blocks.len(), 3);
    assert_eq!(store.blocks[1].time, 55);
}

#[test]
fn fetch_takes_highest_unused_until_exhausted() {
    let mut store = BlockStore::new();
    for h in [2u32, 9, 4] {
        insert_block(&mut store, sample(h, h as u64));
    }
    assert_eq!(fetch(&mut store).unwrap().height, 9);
    assert_eq!(fetch(&mut store).unwrap().height, 4);
    assert_eq!(fetch(&mut store).unwrap().height, 2);
    assert!(fetch(&mut store).is_none());
    // The blocks themselves stay in the store.
    assert_eq!(store.blocks.len(), 3);
}

#[test]
fn parse_block_fields() {
    let b = parse_block(b"0xabcdef", b"123", b"456").unwrap();
    assert_eq!(b.hash.as_slice(), b"abcdef");
    assert_eq!(b.height, 123);
    assert_eq!(b.time, 456);
    // A leading plus sign is read, as the standard integer parse reads it.
    let b = parse_block(b"0xab", b"+7", b"+9").unwrap();
    assert_eq!(b.height, 7);
    assert_eq!(b.time, 9);
    assert!(parse_block(b"0xab", b"+", b"9").is_none());
    assert!(parse_block(b"0", b"123", b"456").is_none());
    assert!(parse_block(b"0xab", b"", b"456").is_none());
    assert!(parse_block(b"0xab", b"12x", b"456").is_none());
    assert!(parse_block(b"0xab", b"4294967296", b"456").is_none());
}

#[test]
fn lottery_draw_and_announcement() {
    let mut hub = Hub::new(b"a".to_vec(), b"e".to_vec());
    hub.set_admin(9);
    let mut store = BlockStore::new();
    insert_block(&mut store, Block { hash: b"cafe".to_vec(), height: 11, time: 100 });

    // A wrong secret draws nothing.
    let bad = BlockRequest { secret: b"wrong".to_vec() };
    let (body, outs) = block(&hub, &mut store, &bad, b"lotto", 5000);
    assert_eq!(body.as_slice(), b"null");
    assert!(outs.is_empty());
    assert!(store.ban.is_empty());

    // The right secret draws the block, tells the admin, and answers with
    // the same announcement without its prefix.
    let req = BlockRequest { secret: b"lotto".to_vec() };
    let (body, outs) = block(&hub, &mut store, &req, b"lotto", 5000);
    let expected = b"{\"type\":\"lottery\",\"block\":11,\"hash\":\"cafe\",\"blockTime\":100000,\"now\":5000}";
    assert_eq!(body.as_slice(), expected.as_slice());
    assert_eq!(outs.len(), 1);
    match &outs[0] {
        Output::Send { to, payload } => {
            assert_eq!(*to, 9);
            assert_eq!(payload[0], b'4');
            assert_eq!(&payload[1..], expected.as_slice());
        }
        _ => panic!("expected the admin announcement"),
    }

    // The store is now exhausted.
    let (body, outs) = block(&hub, &mut store, &req, b"lotto", 5000);
    assert_eq!(body.as_slice(), b"null");
    assert!(outs.is_empty());
}
