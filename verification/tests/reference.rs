use warp_ipfs::error::Error;
use warp_ipfs::reference::MessageReferenceList;

fn cid(n: u128) -> String {
    format!("bafy{n}")
}

#[test]
fn insert_get_update_remove() {
    let mut list = MessageReferenceList::new();
    assert_eq!(list.count(), 0);
    assert_eq!(list.get(1), Err(Error::MessageNotFound));
    assert!(!list.contains(1));

    assert_eq!(list.insert(1, cid(1)), Ok(()));
    assert_eq!(list.insert(2, cid(2)), Ok(()));
    assert_eq!(list.insert(1, cid(9)), Err(Error::MessageFound));
    assert_eq!(list.get(1), Ok(cid(1)));
    assert!(list.contains(2));
    assert_eq!(list.count(), 2);
    assert_eq!(list.list(), vec![(1, cid(1)), (2, cid(2))]);

    assert_eq!(list.update(1, cid(3)), Ok(()));
    assert_eq!(list.get(1), Ok(cid(3)));
    assert_eq!(list.update(7, cid(7)), Err(Error::MessageNotFound));

    assert_eq!(list.remove(2), Ok(()));
    assert_eq!(list.get(2), Err(Error::MessageNotFound));
    assert!(!list.contains(2));
    assert_eq!(list.remove(2), Err(Error::MessageNotFound));
    assert_eq!(list.update(2, cid(2)), Err(Error::MessageNotFound));
    assert_eq!(list.count(), 1);
    // a removed entry keeps its place
    assert_eq!(list.pages(), vec![vec![(1, Some(cid(3))), (2, None)]]);
}

#[test]
fn listing_skips_removed_entries_and_shrink_drops_them() {
    let mut list = MessageReferenceList::new();
    for id in 1..=3u128 {
        list.insert(id, cid(id)).unwrap();
    }
    list.remove(2).unwrap();
    // a live, a removed and a live entry: both live ones are listed
    assert_eq!(list.list(), vec![(1, cid(1)), (3, cid(3))]);
    assert_eq!(list.list().len(), list.count());
    let shrunk = list.shrink().expect("shrunk");
    assert_eq!(shrunk.pages(), vec![vec![(1, Some(cid(1))), (3, Some(cid(3)))]]);
    assert_eq!(shrunk.count(), list.count());

    let mut list = MessageReferenceList::new();
    for id in 1..=3u128 {
        list.insert(id, cid(id)).unwrap();
    }
    list.remove(1).unwrap();
    assert_eq!(list.list(), vec![(2, cid(2)), (3, cid(3))]);
    let shrunk = list.shrink().expect("shrunk");
    assert_eq!(shrunk.pages(), vec![vec![(2, Some(cid(2))), (3, Some(cid(3)))]]);
}

#[test]
fn pages_fill_up_then_chain() {
    let mut list = MessageReferenceList::new();
    for id in 0..502u128 {
        list.insert(id, cid(id)).unwrap();
    }
    let pages = list.pages();
    assert_eq!(pages.len(), 2);
    assert_eq!(pages[0].len(), 501);
    assert_eq!(pages[1], vec![(501, Some(cid(501)))]);
    assert_eq!(list.count(), 502);
    assert_eq!(list.get(501), Ok(cid(501)));
    // only the first page is looked at
    assert!(!list.contains(501));
    assert!(list.contains(500));
    // an id already in a later page is refused
    assert_eq!(list.insert(501, cid(0)), Err(Error::MessageFound));
    assert_eq!(list.list().len(), 502);
}

#[test]
fn pages_pushed_whole() {
    let mut list = MessageReferenceList::new();
    list.push_page(vec![(5, Some(cid(5))), (6, None), (5, Some(cid(7)))]);
    assert_eq!(list.pages(), vec![vec![(5, Some(cid(7))), (6, None)]]);
    assert_eq!(list.get(5), Ok(cid(7)));
    assert_eq!(list.get(6), Err(Error::MessageNotFound));
    // an empty page ends the search
    let mut list = MessageReferenceList::new();
    list.push_page(vec![]);
    list.push_page(vec![(1, Some(cid(1)))]);
    assert_eq!(list.get(1), Err(Error::MessageNotFound));
    assert_eq!(list.count(), 0);
}

#[test]
fn shrink_keeps_the_listing_or_finds_a_repeated_id() {
    let mut list = MessageReferenceList::new();
    for id in 0..600u128 {
        list.insert(id, cid(id)).unwrap();
    }
    let before = list.list();
    let shrunk = list.shrink().expect("shrunk");
    assert_eq!(shrunk.list(), before);
    assert_eq!(shrunk.pages().len(), 2);

    // the same id in two pages is listed twice: shrinking finds it
    let mut twice = MessageReferenceList::new();
    twice.push_page(vec![(1, Some(cid(1)))]);
    twice.push_page(vec![(1, Some(cid(2)))]);
    assert_eq!(twice.list(), vec![(1, cid(1)), (1, cid(2))]);
    assert!(matches!(twice.shrink(), Err(Error::MessageFound)));
}
