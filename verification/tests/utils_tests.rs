use midilang::utils::{bf_name, binary_name, midi_name};

#[test]
fn binary_name_tests() {
    assert_eq!(binary_name("test.mid"), "test");
    assert_eq!(binary_name("path/to/dir/test.bf"), "path/to/dir/test.bf");
    assert_eq!(binary_name("no_suffix"), "no_suffix");
}

#[test]
fn midi_name_tests() {
    assert_eq!(midi_name("test.mid"), "test.mid");
    assert_eq!(midi_name("path/to/dir/test.bf"), "path/to/dir/test.mid");
    assert_eq!(midi_name("no_suffix"), "no_suffix.mid");
}

#[test]
fn bf_name_tests() {
    assert_eq!(bf_name("test.mid"), "test.bf");
    assert_eq!(bf_name("path/to/dir/test.mid"), "path/to/dir/test.bf");
    assert_eq!(bf_name("no_suffix"), "no_suffix.bf");
}

#[test]
fn names_strip_one_extension_at_the_end_only() {
    assert_eq!(binary_name(".mid"), "");
    assert_eq!(binary_name("a.mid.mid"), "a.mid");
    assert_eq!(binary_name("a.mid.txt"), "a.mid.txt");
    assert_eq!(binary_name("mid"), "mid");
    assert_eq!(binary_name(""), "");
    assert_eq!(midi_name("a.bf.mid"), "a.bf.mid");
    assert_eq!(midi_name("a.mid.bf"), "a.mid.mid");
    assert_eq!(midi_name(""), ".mid");
    assert_eq!(bf_name("a.bf"), "a.bf");
    assert_eq!(bf_name("dir.mid/file"), "dir.mid/file.bf");
    assert_eq!(bf_name("b\u{e9}mol.mid"), "b\u{e9}mol.bf");
}
