use chrono::NaiveDate;
use vk_archive_parser::dates::parse_date_time;
use vk_archive_parser::errors::ChatError;
use vk_archive_parser::message::resolve_header;
use vk_archive_parser::page::{parse_page_bytes, parse_text};
use vk_archive_parser::slug::{parse_chat_id, parse_from_id};

#[test]
fn simple_from_id() {
    assert_eq!(parse_from_id("https://vk.com/id0".split_at(15).1).unwrap(), 0);
    assert_eq!(parse_from_id("club1").unwrap(), -1);
}

#[test]
fn simple_date_time() {
    let string = "20 июн 2023 в 8:34:00 (ред.)";
    let dt = NaiveDate::from_ymd_opt(2023, 6, 20)
        .unwrap()
        .and_hms_opt(8, 34, 0)
        .unwrap()
        .timestamp();
    assert_eq!(parse_date_time(string).unwrap(), dt);
}

#[test]
fn from_id_sign_convention() {
    assert_eq!(parse_from_id("id334240417").unwrap(), 334240417);
    assert_eq!(parse_from_id("public17").unwrap(), -17);
    assert_eq!(parse_from_id("club99999").unwrap(), -99999);
}

#[test]
fn from_id_rejects_digitless_slug() {
    let err = parse_from_id("group").unwrap_err();
    assert_eq!(err, ChatError::UnrecognizedSlug(String::from("group")));
}

#[test]
fn from_id_rejects_mixed_tail() {
    let err = parse_from_id("id12ab").unwrap_err();
    assert_eq!(err, ChatError::UnrecognizedSlug(String::from("id12ab")));
}

#[test]
fn date_time_exact_value() {
    // 2023-06-20 08:34:00 UTC, before the timezone correction.
    assert_eq!(
        parse_date_time("20 июн 2023 в 8:34:00 (ред.)").unwrap(),
        1687250040
    );
}

#[test]
fn date_time_stable_under_reparse() {
    // The month substitution is idempotent: text already in numeric form
    // normalizes to the same timestamp as the localized original.
    let localized = parse_date_time("20 июн 2023 в 8:34:00").unwrap();
    let substituted = parse_date_time("20 06 2023 в 8:34:00").unwrap();
    assert_eq!(localized, substituted);
}

#[test]
fn date_time_rejects_garbage() {
    let err = parse_date_time("yesterday at noon").unwrap_err();
    assert_eq!(
        err,
        ChatError::UnparseableDateTime(String::from("yesterday at noon"))
    );
}

#[test]
fn date_time_rejects_impossible_day() {
    let err = parse_date_time("31 фев 2023 в 8:00:00").unwrap_err();
    assert_eq!(
        err,
        ChatError::UnparseableDateTime(String::from("31 фев 2023 в 8:00:00"))
    );
}

#[test]
fn chat_id_parses_signed_numbers() {
    assert_eq!(parse_chat_id("123").unwrap(), 123);
    assert_eq!(parse_chat_id("-456").unwrap(), -456);
    let err = parse_chat_id("x1").unwrap_err();
    assert_eq!(err, ChatError::InvalidChatId(String::from("x1")));
}

#[test]
fn header_resolves_link_and_date() {
    // 2021-07-14 11:17:48 UTC is 1626261468; the correction adds 18000.
    let href = String::from("https://vk.com/id334240417");
    let (from_id, date) =
        resolve_header(Some(&href), "Ivan Ivanov, 14 июл 2021 в 11:17:48").unwrap();
    assert_eq!(from_id, 334240417);
    assert_eq!(date, 1626261468 + 18000);
}

#[test]
fn header_without_link_falls_back_to_self() {
    let (from_id, date) = resolve_header(None, "Me, 20 июн 2023 в 8:34:00").unwrap();
    assert_eq!(from_id, 0);
    assert_eq!(date, 1687250040 + 18000);
}

#[test]
fn header_without_comma_is_malformed() {
    let err = resolve_header(None, "no delimiter here").unwrap_err();
    assert_eq!(err, ChatError::MalformedHeaderText);
}

fn message_html(data_id: &str, href_part: &str, body: &str, attachments: &str) -> String {
    format!(
        "<div class=\"message\"{}>x  <div class=\"message__header\">{}, 14 июл 2021 в 11:17:48</div>  {}  {}</div>",
        data_id, href_part, body, attachments
    )
}

const IVAN: &str = "<a href=\"https://vk.com/id334240417\">Ivan Ivanov</a>";

#[test]
fn page_with_one_message_parses() {
    let html = message_html(" data-id=\"100\"", IVAN, "Hello world", "");
    let page = parse_text(&html).unwrap();
    assert_eq!(page.page_number, 1);
    assert_eq!(page.message_items.len(), 1);
    let m = &page.message_items[0];
    assert_eq!(m.id, 100);
    assert_eq!(m.from_id, 334240417);
    assert_eq!(m.date, 1626261468 + 18000);
    assert_eq!(m.message_text, "Hello world");
    assert!(m.attachments.is_none());
}

#[test]
fn page_number_read_from_pagination_link() {
    let html = format!(
        "{}<div class=\"pg_lnk_sel\">7</div>",
        message_html(" data-id=\"1\"", IVAN, "hi", "")
    );
    let page = parse_text(&html).unwrap();
    assert_eq!(page.page_number, 7);
}

#[test]
fn page_number_rejects_non_numeric_text() {
    let html = format!(
        "{}<div class=\"pg_lnk_sel\">abc</div>",
        message_html(" data-id=\"1\"", IVAN, "hi", "")
    );
    let err = parse_text(&html).unwrap_err();
    assert_eq!(err, ChatError::MalformedPageNumber(String::from("abc")));
}

#[test]
fn attachment_extracted_with_description_and_link() {
    let att = "<div class=\"attachment\"><div class=\"attachment__description\">Photo</div>\
               <div class=\"attachment__link\">https://vk.com/photo1</div></div>";
    let html = message_html(" data-id=\"5\"", IVAN, "look", att);
    let page = parse_text(&html).unwrap();
    let atts = page.message_items[0].attachments.as_ref().unwrap();
    assert_eq!(atts.len(), 1);
    assert_eq!(atts[0].description, "Photo");
    assert_eq!(atts[0].link.as_deref(), Some("https://vk.com/photo1"));
}

#[test]
fn attachment_without_link_keeps_description() {
    let att =
        "<div class=\"attachment\"><div class=\"attachment__description\">Sticker</div></div>";
    let html = message_html(" data-id=\"5\"", IVAN, "look", att);
    let page = parse_text(&html).unwrap();
    let atts = page.message_items[0].attachments.as_ref().unwrap();
    assert_eq!(atts[0].description, "Sticker");
    assert!(atts[0].link.is_none());
}

#[test]
fn attachment_without_description_is_structural_error() {
    let att = "<div class=\"attachment\"><div class=\"attachment__link\">x</div></div>";
    let html = message_html(" data-id=\"5\"", IVAN, "look", att);
    let err = parse_text(&html).unwrap_err();
    assert_eq!(err, ChatError::MissingAttachmentDescription);
}

#[test]
fn message_without_attachments_has_absent_field() {
    // Absence, not an empty sequence: the distinction is preserved.
    let html = message_html(" data-id=\"9\"", IVAN, "plain", "");
    let page = parse_text(&html).unwrap();
    assert_eq!(page.message_items[0].attachments, None);
}

#[test]
fn message_without_data_id_is_rejected() {
    let html = message_html("", IVAN, "hi", "");
    let err = parse_text(&html).unwrap_err();
    assert_eq!(err, ChatError::MissingMessageId);
}

#[test]
fn message_without_header_is_rejected() {
    let html = "<div class=\"message\" data-id=\"4\">just text</div>";
    let err = parse_text(html).unwrap_err();
    assert_eq!(err, ChatError::MissingHeader);
}

#[test]
fn message_without_segments_is_malformed() {
    let html = "<div class=\"message\" data-id=\"4\">\
                <div class=\"message__header\">one-segment</div></div>";
    let err = parse_text(html).unwrap_err();
    assert_eq!(err, ChatError::MalformedHeaderText);
}

#[test]
fn message_with_digitless_slug_is_rejected() {
    let html = message_html(
        " data-id=\"4\"",
        "<a href=\"https://vk.com/group\">G</a>",
        "hi",
        "",
    );
    let err = parse_text(&html).unwrap_err();
    assert_eq!(err, ChatError::UnrecognizedSlug(String::from("group")));
}

#[test]
fn legacy_encoded_page_decodes_and_parses() {
    let html = message_html(" data-id=\"100\"", IVAN, "Привет", "");
    let (bytes, _, _) = encoding_rs::WINDOWS_1251.encode(&html);
    let page = parse_page_bytes(&bytes.into_owned()).unwrap();
    let m = &page.message_items[0];
    assert_eq!(m.message_text, "Привет");
    assert_eq!(m.date, 1626261468 + 18000);
}
