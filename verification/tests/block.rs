use powchain::models::block::assemble_record;
use powchain::Block;

const GENESIS_TEXT: &str =
    "{\"index\":0,\"timestamp\":1700000000000,\"proof_of_work\":0,\"previous_hash\":\"\",\"hash\":\"\"}";
const GENESIS_HASH: &str = "057f4c8cf6f247050489c9c5f58a042e6bf5a7968c824e705dab4d376963ef97";

#[test]
fn new_block_is_unmined() {
    let block = Block::new(4, String::from("abc"));
    assert_eq!(block.index, 4);
    assert_eq!(block.proof_of_work, 0);
    assert_eq!(block.previous_hash, "abc");
    assert_eq!(block.hash, "");
    assert!(block.timestamp > 0);
}

#[test]
fn block_with_timestamp_keeps_what_it_is_given() {
    let block = Block::with_timestamp(9, 1234, String::from("00ff"));
    assert_eq!(block.index, 9);
    assert_eq!(block.timestamp, 1234);
    assert_eq!(block.proof_of_work, 0);
    assert_eq!(block.previous_hash, "00ff");
    assert_eq!(block.hash, "");
}

#[test]
fn clone_copies_every_field() {
    let mut block = Block::with_timestamp(2, 77, String::from("p"));
    block.proof_of_work = 5;
    block.hash = String::from("h");
    let copy = block.clone();
    assert_eq!(copy.index, 2);
    assert_eq!(copy.timestamp, 77);
    assert_eq!(copy.proof_of_work, 5);
    assert_eq!(copy.previous_hash, "p");
    assert_eq!(copy.hash, "h");
}

#[test]
fn record_frames_the_fields_in_order() {
    assert_eq!(
        assemble_record(1, 2, 3, "\"x\""),
        "{\"index\":1,\"timestamp\":2,\"proof_of_work\":3,\"previous_hash\":\"x\",\"hash\":\"\"}"
    );
}

#[test]
fn record_takes_the_quoted_text_as_it_is() {
    assert_eq!(
        assemble_record(0, 0, 0, "?"),
        "{\"index\":0,\"timestamp\":0,\"proof_of_work\":0,\"previous_hash\":?,\"hash\":\"\"}"
    );
}

#[test]
fn canonical_text_of_genesis() {
    let block = Block::with_timestamp(0, 1_700_000_000_000, String::new());
    assert_eq!(block.canonical_text(), GENESIS_TEXT);
}

#[test]
fn canonical_text_quotes_the_previous_hash() {
    let block = Block::with_timestamp(
        1,
        1001,
        String::from("001587954dbb641b0f44d0b629aca3ea92b73ea1dc18f83a993109afe43ba6e0"),
    );
    assert_eq!(
        block.canonical_text(),
        "{\"index\":1,\"timestamp\":1001,\"proof_of_work\":0,\"previous_hash\":\"001587954dbb641b0f44d0b629aca3ea92b73ea1dc18f83a993109afe43ba6e0\",\"hash\":\"\"}"
    );
}

#[test]
fn canonical_text_escapes_as_json_does() {
    let mut block = Block::with_timestamp(3, 42, String::from("a\"b\\c\n\u{1}\u{e9}"));
    block.proof_of_work = 7;
    assert_eq!(
        block.canonical_text(),
        "{\"index\":3,\"timestamp\":42,\"proof_of_work\":7,\"previous_hash\":\"a\\\"b\\\\c\\n\\u0001\u{e9}\",\"hash\":\"\"}"
    );
}

#[test]
fn canonical_text_leaves_the_stored_hash_out() {
    let mut block = Block::with_timestamp(0, 1_700_000_000_000, String::new());
    block.hash = String::from("anything");
    assert_eq!(block.canonical_text(), GENESIS_TEXT);
}

#[test]
fn canonical_text_is_what_serde_json_writes_for_the_fields() {
    let block = Block::with_timestamp(12, 3456, String::from("tab\there"));
    let expected = format!(
        "{{\"index\":{},\"timestamp\":{},\"proof_of_work\":{},\"previous_hash\":{},\"hash\":{}}}",
        serde_json::to_string(&12u64).unwrap(),
        serde_json::to_string(&3456u64).unwrap(),
        serde_json::to_string(&0u64).unwrap(),
        serde_json::to_string("tab\there").unwrap(),
        serde_json::to_string("").unwrap(),
    );
    assert_eq!(block.canonical_text(), expected);
}

#[test]
fn hash_of_genesis() {
    let block = Block::with_timestamp(0, 1_700_000_000_000, String::new());
    assert_eq!(block.generate_block_hash(), GENESIS_HASH);
}

#[test]
fn hash_of_escaped_previous_hash() {
    let mut block = Block::with_timestamp(3, 42, String::from("a\"b\\c\n\u{1}\u{e9}"));
    block.proof_of_work = 7;
    assert_eq!(
        block.generate_block_hash(),
        "610c3f2b2828c2b6de01d8c97a4e007fc4b6c92f5b0573bca4fe7c8ea396dc1b"
    );
}

#[test]
fn hash_of_largest_numbers() {
    let mut block = Block::with_timestamp(u64::MAX, u64::MAX, String::from("ff"));
    block.proof_of_work = u64::MAX;
    assert_eq!(
        block.generate_block_hash(),
        "b37123af9bfc7543a3357e5fdca3c19db5b125f43fa1ba97842683ca1da9e963"
    );
}

#[test]
fn hash_is_64_lowercase_hex_digits() {
    let hash = Block::with_timestamp(5, 6, String::from("7")).generate_block_hash();
    assert_eq!(hash.len(), 64);
    assert!(hash.chars().all(|c| c.is_ascii_digit() || ('a'..='f').contains(&c)));
}

#[test]
fn hash_is_the_same_for_the_same_content() {
    let a = Block::with_timestamp(1, 2, String::from("3"));
    let mut b = Block::with_timestamp(1, 2, String::from("3"));
    b.hash = String::from("stale");
    assert_eq!(a.generate_block_hash(), a.generate_block_hash());
    assert_eq!(a.generate_block_hash(), b.generate_block_hash());
}

#[test]
fn hash_changes_with_each_field() {
    let base = Block::with_timestamp(1, 2, String::from("3"));
    let reference = base.generate_block_hash();

    let mut changed = base.clone();
    changed.index = 2;
    assert_ne!(changed.generate_block_hash(), reference);

    let mut changed = base.clone();
    changed.timestamp = 3;
    assert_ne!(changed.generate_block_hash(), reference);

    let mut changed = base.clone();
    changed.proof_of_work = 1;
    assert_ne!(changed.generate_block_hash(), reference);

    let mut changed = base.clone();
    changed.previous_hash = String::from("4");
    assert_ne!(changed.generate_block_hash(), reference);
}

#[test]
fn mine_finds_the_first_nonce_after_the_current_one() {
    let mut block = Block::with_timestamp(0, 1000, String::new());
    assert!(block.mine(2));
    assert_eq!(block.proof_of_work, 10);
    assert_eq!(block.hash, "001587954dbb641b0f44d0b629aca3ea92b73ea1dc18f83a993109afe43ba6e0");
    assert_eq!(block.hash, block.generate_block_hash());
}

#[test]
fn mine_leaves_the_other_fields_alone() {
    let mut block = Block::with_timestamp(6, 1000, String::from("prev"));
    assert!(block.mine(1));
    assert_eq!(block.index, 6);
    assert_eq!(block.timestamp, 1000);
    assert_eq!(block.previous_hash, "prev");
}

#[test]
fn mine_at_difficulty_three() {
    let mut block = Block::with_timestamp(0, 5, String::new());
    assert!(block.mine(3));
    assert_eq!(block.proof_of_work, 3976);
    assert_eq!(block.hash, "0005d811cab2831a7f39e77a0c3f0f11ac02c180547445c4f410bd60b620f3b5");
}

#[test]
fn mine_starts_from_the_current_counter() {
    let mut block = Block::with_timestamp(0, 5, String::new());
    block.proof_of_work = 10;
    assert!(block.mine(1));
    assert_eq!(block.proof_of_work, 24);
    assert_eq!(block.hash, "075a7913ac4ebff8f8876fed0397a25b4c345777acfe5bb2db5df0e42182bdca");
}

#[test]
fn mine_skips_nonces_that_do_not_work() {
    let mut block = Block::with_timestamp(0, 5, String::new());
    assert!(block.mine(1));
    assert_eq!(block.proof_of_work, 4);
    for nonce in 1..4 {
        let mut earlier = Block::with_timestamp(0, 5, String::new());
        earlier.proof_of_work = nonce;
        assert!(!earlier.generate_block_hash().starts_with('0'));
    }
}

#[test]
fn mine_at_difficulty_zero_takes_one_attempt() {
    let mut block = Block::with_timestamp(0, 5, String::new());
    assert!(block.mine(0));
    assert_eq!(block.proof_of_work, 1);
    assert_eq!(block.hash, "b32763c533aaf452d7791e57bd3490b5e8043905094a9a1321c101c61d7cf671");
}

#[test]
fn mine_again_moves_to_the_next_nonce() {
    let mut block = Block::with_timestamp(0, 5, String::new());
    assert!(block.mine(0));
    assert!(block.mine(0));
    assert_eq!(block.proof_of_work, 2);
    assert_eq!(block.hash, block.generate_block_hash());
}

#[test]
fn mine_gives_up_when_the_counter_is_exhausted() {
    let mut block = Block::with_timestamp(7, 9, String::from("ab"));
    block.proof_of_work = u64::MAX - 3;
    assert!(!block.mine(65));
    assert_eq!(block.proof_of_work, u64::MAX);
    assert_eq!(block.hash, "31f543475d605ae6f9bff51c7bfe009859a892bd74bd046d39513027e07c2832");
    assert_eq!(block.index, 7);
    assert_eq!(block.timestamp, 9);
    assert_eq!(block.previous_hash, "ab");
}

#[test]
fn mine_with_an_exhausted_counter_changes_nothing() {
    let mut block = Block::with_timestamp(7, 9, String::from("ab"));
    block.proof_of_work = u64::MAX;
    block.hash = String::from("kept");
    assert!(!block.mine(0));
    assert_eq!(block.proof_of_work, u64::MAX);
    assert_eq!(block.hash, "kept");
}

#[test]
fn sealed_after_mining() {
    let mut block = Block::with_timestamp(0, 1000, String::new());
    assert!(!block.is_sealed(0));
    assert!(block.mine(2));
    assert!(block.is_sealed(2));
    assert!(block.is_sealed(1));
    assert!(block.is_sealed(0));
    assert!(!block.is_sealed(3));
}

#[test]
fn not_sealed_with_a_foreign_hash() {
    let mut block = Block::with_timestamp(0, 1000, String::new());
    assert!(block.mine(2));
    block.hash = String::from("0000000000000000000000000000000000000000000000000000000000000000");
    assert!(!block.is_sealed(2));
    assert!(!block.is_sealed(0));
}

/// A previous hash as it stands in the hashed text, taken out of that text.
fn quoted(previous_hash: &str) -> String {
    let block = Block::with_timestamp(0, 0, String::from(previous_hash));
    let text = block.canonical_text();
    let head = "{\"index\":0,\"timestamp\":0,\"proof_of_work\":0,\"previous_hash\":";
    let tail = ",\"hash\":\"\"}";
    assert!(text.starts_with(head));
    assert!(text.ends_with(tail));
    String::from(&text[head.len()..text.len() - tail.len()])
}

#[test]
fn quoting_puts_the_text_between_double_quotes() {
    assert_eq!(quoted(""), "\"\"");
    assert_eq!(quoted("abc"), "\"abc\"");
    assert_eq!(quoted("00ff"), "\"00ff\"");
}

#[test]
fn quoting_escapes_quote_and_backslash() {
    assert_eq!(quoted("\""), "\"\\\"\"");
    assert_eq!(quoted("\\"), "\"\\\\\"");
    assert_eq!(quoted("a\"b\\c"), "\"a\\\"b\\\\c\"");
}

#[test]
fn quoting_names_five_control_characters() {
    assert_eq!(quoted("\u{8}"), "\"\\b\"");
    assert_eq!(quoted("\u{c}"), "\"\\f\"");
    assert_eq!(quoted("\n"), "\"\\n\"");
    assert_eq!(quoted("\r"), "\"\\r\"");
    assert_eq!(quoted("\t"), "\"\\t\"");
}

#[test]
fn quoting_writes_other_control_characters_in_hexadecimal() {
    assert_eq!(quoted("\u{0}"), "\"\\u0000\"");
    assert_eq!(quoted("\u{1}"), "\"\\u0001\"");
    assert_eq!(quoted("\u{b}"), "\"\\u000b\"");
    assert_eq!(quoted("\u{e}"), "\"\\u000e\"");
    assert_eq!(quoted("\u{1a}"), "\"\\u001a\"");
    assert_eq!(quoted("\u{1f}"), "\"\\u001f\"");
}

#[test]
fn quoting_leaves_all_other_characters_alone() {
    assert_eq!(quoted(" "), "\" \"");
    assert_eq!(quoted("/"), "\"/\"");
    assert_eq!(quoted("\u{7f}"), "\"\u{7f}\"");
    assert_eq!(quoted("\u{80}"), "\"\u{80}\"");
    assert_eq!(quoted("\u{e9}"), "\"\u{e9}\"");
    assert_eq!(quoted("\u{2028}"), "\"\u{2028}\"");
    assert_eq!(quoted("\u{1f600}"), "\"\u{1f600}\"");
}

#[test]
fn quoting_of_every_ascii_character() {
    for code in 0u8..128 {
        let c = code as char;
        let inside = match c {
            '"' => String::from("\\\""),
            '\\' => String::from("\\\\"),
            '\u{8}' => String::from("\\b"),
            '\u{c}' => String::from("\\f"),
            '\n' => String::from("\\n"),
            '\r' => String::from("\\r"),
            '\t' => String::from("\\t"),
            _ if code < 32 => format!("\\u00{:02x}", code),
            _ => c.to_string(),
        };
        assert_eq!(quoted(&format!("x{}y", c)), format!("\"x{}y\"", inside));
    }
}

#[test]
fn quoting_tells_texts_apart() {
    let texts = ["", "\"", "\\", "\\\"", "n", "\n", "\\n", "u0001", "\u{1}", "\\u0001", "a", "aa"];
    for (i, a) in texts.iter().enumerate() {
        for (j, b) in texts.iter().enumerate() {
            assert_eq!(quoted(a) == quoted(b), i == j);
        }
    }
}

#[test]
fn changed_field_unseals_a_block() {
    let mut sealed = Block::with_timestamp(4, 1000, String::from("00aa"));
    assert!(sealed.mine(1));

    let mut changed = sealed.clone();
    changed.index = 5;
    assert_ne!(changed.generate_block_hash(), changed.hash);

    let mut changed = sealed.clone();
    changed.timestamp = 1001;
    assert_ne!(changed.generate_block_hash(), changed.hash);

    let mut changed = sealed.clone();
    changed.proof_of_work += 1;
    assert_ne!(changed.generate_block_hash(), changed.hash);

    let mut changed = sealed.clone();
    changed.previous_hash = String::from("00ab");
    assert_ne!(changed.generate_block_hash(), changed.hash);

    let mut changed = sealed.clone();
    changed.hash = String::from("0");
    assert_ne!(changed.generate_block_hash(), changed.hash);
}
