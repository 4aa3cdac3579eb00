use wechat_statistics::content::{decode, decode_from, decode_msg, strip_group_prefix};

const ZSTD_MAGIC: [u8; 4] = [0x28, 0xB5, 0x2F, 0xFD];

#[test]
fn decodes_plain_utf8() {
    assert_eq!(decode("你好世界".as_bytes()), Some("你好世界".to_string()));
}

#[test]
fn decodes_zstd_frame() {
    let original = "今晚月色真美，想你了。";
    let compressed = zstd::encode_all(original.as_bytes(), 3).unwrap();
    assert_eq!(&compressed[..4], &ZSTD_MAGIC);
    assert_eq!(decode(&compressed), Some(original.to_string()));
}

#[test]
fn strips_chatroom_prefix_only() {
    assert_eq!(strip_group_prefix("wxid_abc:\n正文".into()), "正文");
    assert_eq!(strip_group_prefix("123456@chatroom:\n正文".into()), "正文");
    assert_eq!(strip_group_prefix("就是普通文本: 别切".into()), "就是普通文本: 别切");
}

#[test]
fn broken_bytes_are_no_text() {
    assert_eq!(decode(&[0xFF, 0xFE]), None);
    assert_eq!(decode(&[0x28, 0xB5, 0x2F, 0xFD, 0x00]), None);
    assert_eq!(decode(&[]), Some(String::new()));
}

#[test]
fn unpacked_bytes_decide_on_a_frame() {
    let mut frame = ZSTD_MAGIC.to_vec();
    frame.push(1);
    assert_eq!(decode_from(&frame, Some("早".as_bytes().to_vec())), Some("早".to_string()));
    assert_eq!(decode_from(&frame, None), None);
    assert_eq!(decode_from(&frame, Some(vec![0xFF])), None);
    assert_eq!(decode_from("早".as_bytes(), None), Some("早".to_string()));
}

#[test]
fn the_content_comes_before_the_packed_column() {
    let packed = zstd::encode_all("wxid_a:\n压缩的".as_bytes(), 3).unwrap();
    assert_eq!(decode_msg("wxid_a:\n明文".as_bytes(), &packed), Some("明文".to_string()));
    assert_eq!(decode_msg(&[], &packed), Some("压缩的".to_string()));
    assert_eq!(decode_msg(&[0xFF], &packed), Some("压缩的".to_string()));
    assert_eq!(decode_msg(&[0xFF], &[0xFF]), None);
}

#[test]
fn only_the_first_sender_is_cut_off() {
    assert_eq!(strip_group_prefix("wxid_a:\nwxid_b:\n文".into()), "wxid_b:\n文");
    assert_eq!(strip_group_prefix("标题:\nwxid_b:\n文".into()), "标题:\nwxid_b:\n文");
    assert_eq!(strip_group_prefix("wxid_a 没有".into()), "wxid_a 没有");
}
