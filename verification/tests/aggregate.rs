use std::collections::HashSet;
use vk_archive_parser::chat::join_pages;
use vk_archive_parser::message::Message;
use vk_archive_parser::page::VkPage;

fn msg(id: usize, from_id: isize) -> Message {
    Message {
        id,
        from_id,
        date: 0,
        message_text: String::new(),
        attachments: None,
    }
}

fn page(page_number: usize, ids: &[(usize, isize)]) -> VkPage {
    VkPage {
        page_number,
        message_items: ids.iter().map(|&(i, f)| msg(i, f)).collect(),
    }
}

#[test]
fn pages_merge_in_ascending_page_order() {
    // Pages arrive as [2, 1, 3]; the chat reads page 1, then 2, then 3.
    let pages = vec![
        page(2, &[(20, 10)]),
        page(1, &[(10, 30)]),
        page(3, &[(30, 10)]),
    ];
    let chat = join_pages(pages, -77);
    assert_eq!(chat.id, -77);
    let order: Vec<usize> = chat.messages.iter().map(|m| m.id).collect();
    assert_eq!(order, vec![10, 20, 30]);
}

#[test]
fn merge_ignores_arrival_order() {
    let a = join_pages(vec![page(2, &[(2, 1)]), page(1, &[(1, 2)])], 9);
    let b = join_pages(vec![page(1, &[(1, 2)]), page(2, &[(2, 1)])], 9);
    assert_eq!(a, b);
}

#[test]
fn page_internal_order_is_kept() {
    let pages = vec![page(1, &[(5, 1), (6, 2), (7, 1)])];
    let chat = join_pages(pages, 1);
    let order: Vec<usize> = chat.messages.iter().map(|m| m.id).collect();
    assert_eq!(order, vec![5, 6, 7]);
}

#[test]
fn equal_page_numbers_keep_arrival_order() {
    // Ties are not expected in an archive, but the sort is stable.
    let pages = vec![page(3, &[(31, 1)]), page(1, &[(11, 1)]), page(3, &[(32, 1)])];
    let chat = join_pages(pages, 0);
    let order: Vec<usize> = chat.messages.iter().map(|m| m.id).collect();
    assert_eq!(order, vec![11, 31, 32]);
}

#[test]
fn users_are_distinct_senders() {
    let pages = vec![page(1, &[(1, 10), (2, -20)]), page(2, &[(3, 10)])];
    let chat = join_pages(pages, 4);
    let expected: HashSet<isize> = [10, -20].into_iter().collect();
    assert_eq!(chat.users, expected);
}

#[test]
fn empty_chat_has_empty_users() {
    let chat = join_pages(Vec::new(), 42);
    assert_eq!(chat.id, 42);
    assert!(chat.messages.is_empty());
    assert!(chat.users.is_empty());
}
