use butterc::driver::{bin_name, get_ext, get_name};

#[test]
fn name_is_last_path_piece() {
    assert_eq!(get_name(&"dir/sub/prog.btr".to_string()), "prog.btr");
    assert_eq!(get_name(&"prog.btr".to_string()), "prog.btr");
    assert_eq!(get_name(&"dir/".to_string()), "");
}

#[test]
fn ext_is_second_dot_piece() {
    assert_eq!(get_ext(&"dir/prog.btr".to_string()), Some("btr".to_string()));
    assert_eq!(get_ext(&"a.b.c".to_string()), Some("b".to_string()));
    assert_eq!(get_ext(&"dir.d/prog".to_string()), None);
}

#[test]
fn bin_name_drops_extension() {
    assert_eq!(bin_name(&"prog.btr".to_string()), "prog");
    assert_eq!(bin_name(&"prog".to_string()), "prog");
}
