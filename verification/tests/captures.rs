use regex_engine::captures::CaptureMap;
use regex_engine::pattern::chars_of;

#[test]
fn later_capture_of_a_group_wins() {
    let mut table = CaptureMap::new();
    table.insert(1, vec!['a']);
    table.insert(2, vec!['b', 'c']);
    table.insert(1, vec!['d']);
    assert_eq!(table.get(1), Some(&vec!['d']));
    assert_eq!(table.get(2), Some(&vec!['b', 'c']));
    assert_eq!(table.get(3), None);
}

#[test]
fn merge_prefers_the_merged_table() {
    let mut base = CaptureMap::new();
    base.insert(1, vec!['a']);
    base.insert(2, vec!['b']);
    let mut other = CaptureMap::new();
    other.insert(2, vec!['x']);
    other.insert(3, vec!['y']);
    base.merge(&other);
    assert_eq!(base.get(1), Some(&vec!['a']));
    assert_eq!(base.get(2), Some(&vec!['x']));
    assert_eq!(base.get(3), Some(&vec!['y']));
}

#[test]
fn duplicate_copies_every_entry() {
    let mut table = CaptureMap::new();
    table.insert(4, vec!['q']);
    let copy = table.duplicate();
    assert_eq!(copy.get(4), Some(&vec!['q']));
    assert_eq!(copy.get(5), None);
}

#[test]
fn chars_of_splits_into_characters() {
    assert_eq!(chars_of("h\u{e9}llo"), vec!['h', '\u{e9}', 'l', 'l', 'o']);
    assert_eq!(chars_of(""), Vec::<char>::new());
}
