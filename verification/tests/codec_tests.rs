use rustalot::params::ByteMap;
use rustalot::walk_params;

fn walked(data: &[u8]) -> ByteMap {
    let mut map = ByteMap::new();
    walk_params(&data.to_vec(), &mut map);
    map
}

#[test]
fn decodes_plain_pair() {
    let map = walked(b"test=42");
    assert_eq!(map.get(&b"test".to_vec()), Some(&b"42".to_vec()));
}

#[test]
fn decodes_percent_escape_in_value() {
    let map = walked(b"q=a%20b");
    assert_eq!(map.get(&b"q".to_vec()), Some(&b"a b".to_vec()));
}

#[test]
fn decodes_lowercase_and_uppercase_hex() {
    let map = walked(b"a=%2f&b=%2F");
    assert_eq!(map.get(&b"a".to_vec()), Some(&b"/".to_vec()));
    assert_eq!(map.get(&b"b".to_vec()), Some(&b"/".to_vec()));
}

#[test]
fn incomplete_escape_is_literal() {
    let map = walked(b"a=%4&b=%zz&c=x%");
    assert_eq!(map.get(&b"a".to_vec()), Some(&b"%4".to_vec()));
    assert_eq!(map.get(&b"b".to_vec()), Some(&b"%zz".to_vec()));
    assert_eq!(map.get(&b"c".to_vec()), Some(&b"x%".to_vec()));
}

#[test]
fn keys_are_not_decoded() {
    let map = walked(b"k%20ey=v%20al");
    assert_eq!(map.get(&b"k%20ey".to_vec()), Some(&b"v al".to_vec()));
    assert_eq!(map.get(&b"k ey".to_vec()), None);
}

#[test]
fn pair_without_equals_is_dropped() {
    let map = walked(b"lonely&k=v");
    assert_eq!(map.get(&b"lonely".to_vec()), None);
    assert_eq!(map.get(&b"k".to_vec()), Some(&b"v".to_vec()));
    assert_eq!(map.len(), 1);
}

#[test]
fn empty_input_yields_nothing() {
    let map = walked(b"");
    assert_eq!(map.len(), 0);
}

#[test]
fn value_holds_everything_after_first_equals() {
    let map = walked(b"k=a=b");
    assert_eq!(map.get(&b"k".to_vec()), Some(&b"a=b".to_vec()));
}

#[test]
fn duplicate_key_is_last_write_wins() {
    let map = walked(b"k=1&k=2");
    assert_eq!(map.get(&b"k".to_vec()), Some(&b"2".to_vec()));
    assert_eq!(map.len(), 1);
}

#[test]
fn invalid_utf8_decodes_to_replacement_character() {
    let map = walked(b"k=%FF");
    assert_eq!(map.get(&b"k".to_vec()), Some(&vec![0xEF, 0xBF, 0xBD]));
}

#[test]
fn invalid_utf8_is_replaced_inside_valid_text() {
    let map = walked(b"k=a%FFb");
    assert_eq!(map.get(&b"k".to_vec()), Some(&b"a\xEF\xBF\xBDb".to_vec()));
}

#[test]
fn valid_utf8_value_is_kept_verbatim() {
    let map = walked(b"k=caf%C3%A9");
    assert_eq!(map.get(&b"k".to_vec()), Some(&"caf\u{e9}".as_bytes().to_vec()));
}

#[test]
fn multiple_pairs_all_present() {
    let map = walked(b"one=1&two=2&three=3");
    assert_eq!(map.get(&b"one".to_vec()), Some(&b"1".to_vec()));
    assert_eq!(map.get(&b"two".to_vec()), Some(&b"2".to_vec()));
    assert_eq!(map.get(&b"three".to_vec()), Some(&b"3".to_vec()));
}
