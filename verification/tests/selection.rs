use warp_ipfs::error::Error;
use warp_ipfs::selection::{collect_by_date_exec, message_pages, select_messages, MessageMeta, MessageOptions, MessagesType};

fn meta(id: u128, date: i64, pinned: bool) -> MessageMeta {
    MessageMeta { id, date, pinned }
}

fn ids(v: &[MessageMeta]) -> Vec<u128> {
    v.iter().map(|m| m.id).collect()
}

fn opts() -> MessageOptions {
    MessageOptions {
        date_range: None,
        range: None,
        limit: None,
        reverse: false,
        first_message: false,
        last_message: false,
        pinned: false,
        keyword: None,
        messages_type: MessagesType::List,
    }
}

fn sample() -> Vec<MessageMeta> {
    (0..10u128).map(|i| meta(i, 100 + i as i64 * 10, i % 3 == 0)).collect()
}

#[test]
fn collecting_orders_by_date_and_drops_same_dates() {
    let v = vec![meta(1, 30, false), meta(2, 10, false), meta(3, 30, true), meta(4, 20, false)];
    let r = collect_by_date_exec(&v);
    assert_eq!(ids(&r), vec![2, 4, 1]);
}

#[test]
fn selecting_messages() {
    let ms = sample();
    let all = vec![true; ms.len()];
    assert_eq!(ids(&select_messages(&ms, &opts(), &all)), (0..10).collect::<Vec<u128>>());

    let o = MessageOptions { reverse: true, limit: Some(3), ..opts() };
    assert_eq!(ids(&select_messages(&ms, &o, &all)), vec![9, 8, 7]);

    let o = MessageOptions { first_message: true, ..opts() };
    assert_eq!(ids(&select_messages(&ms, &o, &all)), vec![0]);
    let o = MessageOptions { last_message: true, reverse: true, ..opts() };
    assert_eq!(ids(&select_messages(&ms, &o, &all)), vec![0]);

    let o = MessageOptions { range: Some((2, 4)), ..opts() };
    assert_eq!(ids(&select_messages(&ms, &o, &all)), vec![2, 3, 4]);

    let o = MessageOptions { date_range: Some((120, 150)), ..opts() };
    assert_eq!(ids(&select_messages(&ms, &o, &all)), vec![2, 3, 4, 5]);

    let o = MessageOptions { pinned: true, ..opts() };
    assert_eq!(ids(&select_messages(&ms, &o, &all)), vec![0, 3, 6, 9]);

    // messages that could not be read, or do not match, do not count
    let mut acc = all.clone();
    acc[0] = false;
    acc[1] = false;
    let o = MessageOptions { limit: Some(2), ..opts() };
    assert_eq!(ids(&select_messages(&ms, &o, &acc)), vec![2, 3]);

    assert!(select_messages(&vec![], &opts(), &vec![]).is_empty());
}

#[test]
fn paging_messages() {
    let ms = sample();
    let all = vec![true; ms.len()];
    let o = MessageOptions { messages_type: MessagesType::Pages { page: None, amount_per_page: Some(4) }, ..opts() };
    let (pages, total) = message_pages(&ms, &o, &all).ok().expect("pages");
    assert_eq!(total, 3);
    assert_eq!(pages.iter().map(|p| p.index).collect::<Vec<_>>(), vec![0, 1, 2]);
    assert_eq!(ids(&pages[2].messages), vec![8, 9]);

    let o = MessageOptions { messages_type: MessagesType::Pages { page: Some(1), amount_per_page: Some(4) }, ..opts() };
    let (pages, total) = message_pages(&ms, &o, &all).ok().expect("page");
    assert_eq!(total, 1);
    assert_eq!(pages[0].index, 1);
    assert_eq!(ids(&pages[0].messages), vec![4, 5, 6, 7]);

    let o = MessageOptions { messages_type: MessagesType::Pages { page: Some(3), amount_per_page: Some(4) }, ..opts() };
    assert_eq!(message_pages(&ms, &o, &all).err(), Some(Error::PageNotFound));

    // pinned only, all pages; a zero size means the default
    let o = MessageOptions {
        pinned: true,
        messages_type: MessagesType::Pages { page: None, amount_per_page: Some(0) },
        ..opts()
    };
    let (pages, total) = message_pages(&ms, &o, &all).ok().expect("pages");
    assert_eq!(total, 1);
    assert_eq!(ids(&pages[0].messages), vec![0, 3, 6, 9]);

    let (pages, total) = message_pages(&vec![], &o, &vec![]).ok().expect("none");
    assert_eq!((pages.len(), total), (0, 0));
}
