use pepper::picker::{move_cursor_within, rank_entries, Picker};
use pepper::select::SelectEntryCollection;

fn picker_of(names: &[&str]) -> Picker {
    let mut picker = Picker::new();
    for name in names {
        picker.add_custom_entry(name, "");
    }
    picker.filter("");
    picker
}

#[test]
fn the_cursor_stays_within_the_entries() {
    assert_eq!(0, move_cursor_within(0, -1, 5));
    assert_eq!(4, move_cursor_within(3, 2, 5));
    assert_eq!(2, move_cursor_within(0, 2, 5));
    assert_eq!(1, move_cursor_within(4, -3, 5));
    assert_eq!(0, move_cursor_within(4, isize::MIN, 5));
    assert_eq!(4, move_cursor_within(0, isize::MAX, 5));
    assert_eq!(0, move_cursor_within(0, 7, 1));

    let mut picker = picker_of(&["a", "b", "c"]);
    assert_eq!(0, picker.cursor());
    picker.move_cursor(1);
    assert_eq!(1, picker.cursor());
    picker.move_cursor(5);
    assert_eq!(2, picker.cursor());
    picker.move_cursor(-1);
    assert_eq!(1, picker.cursor());
    picker.move_cursor(-9);
    assert_eq!(0, picker.cursor());
    for offset in [-4isize, -1, 0, 1, 2, 3, 100] {
        for start in 0..3usize {
            let mut picker = picker_of(&["a", "b", "c"]);
            picker.move_cursor(start as isize);
            picker.move_cursor(offset);
            let expected = (start as isize + offset).clamp(0, 2) as usize;
            assert_eq!(expected, picker.cursor());
        }
    }
    let mut empty = Picker::new();
    empty.filter("");
    empty.move_cursor(3);
    assert_eq!(0, empty.cursor());
    assert!(empty.current_entry().is_none());
}

#[test]
fn filtering_keeps_what_matches_best_first() {
    let mut picker = Picker::new();
    picker.add_custom_entry("src/main.rs", "changed");
    picker.add_custom_entry("README.md", "");
    picker.add_custom_entry("src/mode/picker.rs", "");
    picker.filter("");
    assert_eq!(3, picker.len());
    assert_eq!((0, "src/main.rs", "changed"), picker.current_entry().unwrap());

    picker.filter("zzz");
    assert_eq!(0, picker.len());
    assert!(picker.current_entry().is_none());
    assert_eq!(0, picker.cursor());

    picker.filter("READ");
    assert_eq!(1, picker.len());
    assert_eq!((1, "README.md", ""), picker.current_entry().unwrap());

    picker.filter("rs");
    assert_eq!(2, picker.len());
    picker.move_cursor(1);
    assert_eq!(1, picker.cursor());
    picker.filter("main");
    assert_eq!(1, picker.len());
    assert_eq!(0, picker.cursor());
    assert_eq!("src/main.rs", picker.current_entry().unwrap().1);

    picker.clear();
    assert_eq!(0, picker.len());
    assert!(picker.current_entry().is_none());
}

#[test]
fn ranking_orders_by_score_and_then_by_place() {
    let names: Vec<String> = ["abc", "xbx", "b", "abc"].iter().map(|s| s.to_string()).collect();
    let ranked = rank_entries(&names, names.len(), "b", true);
    assert_eq!(4, ranked.len());
    for pair in ranked.windows(2) {
        assert!(
            pair[0].score > pair[1].score
                || (pair[0].score == pair[1].score && pair[0].entry_index < pair[1].entry_index)
        );
    }
    let ascending = rank_entries(&names, names.len(), "b", false);
    for pair in ascending.windows(2) {
        assert!(
            pair[0].score < pair[1].score
                || (pair[0].score == pair[1].score && pair[0].entry_index < pair[1].entry_index)
        );
    }
    let first_two = rank_entries(&names, 2, "", true);
    assert_eq!(vec![0, 1], first_two.iter().map(|e| e.entry_index).collect::<Vec<_>>());
    assert!(first_two.iter().all(|e| e.score == 0));
    assert!(rank_entries(&names, names.len(), "q", true).is_empty());
}

#[test]
fn the_picker_is_as_high_as_its_entries_up_to_a_limit() {
    let mut picker = picker_of(&["a", "b", "c", "d", "e"]);
    assert_eq!(5, picker.height(8));
    assert_eq!(3, picker.height(3));
    assert_eq!(0, picker.height(0));
    assert_eq!(0, picker.scroll());
    picker.move_cursor(4);
    picker.update_scroll(3);
    assert_eq!(2, picker.scroll());
    picker.move_cursor(-1);
    picker.update_scroll(3);
    assert_eq!(2, picker.scroll());
    picker.move_cursor(-3);
    picker.update_scroll(3);
    assert_eq!(0, picker.scroll());
}

#[test]
fn selections_are_filtered() {
    let mut entries = SelectEntryCollection::new();
    assert_eq!(0, entries.len());
    entries.add("matheus");
    entries.add("mate");
    entries.add("xyz");
    assert_eq!(3, entries.len());
    entries.set_filter("");
    assert_eq!(vec!["matheus", "mate", "xyz"], entries.filtered_entries());
    entries.set_filter("ma");
    let filtered = entries.filtered_entries();
    assert_eq!(2, filtered.len());
    assert!(filtered.contains(&"matheus") && filtered.contains(&"mate"));
    entries.set_filter("zz");
    assert!(entries.filtered_entries().is_empty());
    entries.clear();
    assert_eq!(0, entries.len());
    assert!(entries.filtered_entries().is_empty());
}
