//! The register of shared libraries.

use vxpm::shlibs::{
    check_soname_mismatches, get_installed_sonames, parse_shlibs, shared_libraries,
    update_shlibs_file, ShlibEntry,
};

fn texts(v: &[&str]) -> Vec<String> {
    v.iter().map(|s| s.to_string()).collect()
}

fn entries(v: &[&str]) -> Vec<ShlibEntry> {
    v.iter()
        .map(|s| ShlibEntry { soname: s.to_string(), pkg_ver: "foo-1_1".to_string() })
        .collect()
}

fn update(old: &str, new: &str, pkg_ver: &str) -> (String, String, String) {
    (old.to_string(), new.to_string(), pkg_ver.to_string())
}

const REGISTER: &str = "# comment
libfoo.so.1 foo-1.0_1
libfoo-extra.so.1	foo-1.0_1 ignore
libbar.so.2 bar-tools-2.0_3

lonely
libnodash.so.1 nodash
";

#[test]
fn the_register_by_package() {
    let map = parse_shlibs(REGISTER);
    let foo = map.get("foo").unwrap();
    assert_eq!(foo.len(), 2);
    assert_eq!(foo[0].soname, "libfoo.so.1");
    assert_eq!(foo[0].pkg_ver, "foo-1.0_1");
    assert_eq!(foo[1].soname, "libfoo-extra.so.1");
    assert_eq!(map.get("bar-tools").unwrap()[0].soname, "libbar.so.2");
    assert!(!map.contains_key("nodash"));
    assert!(!map.contains_key("lonely"));
    assert_eq!(map.entries.len(), 2);
    assert!(parse_shlibs("").entries.is_empty());
}

#[test]
fn libraries_in_a_list_of_files() {
    let list = "/usr/bin/foo\n/usr/lib/libfoo.so -> libfoo.so.1\n/usr/lib/libfoo.so.1.0\n \
                /usr/lib/libbar.so \n/usr/share/x.sox\n";
    assert_eq!(
        shared_libraries(list),
        ["/usr/lib/libfoo.so -> libfoo.so.1", "/usr/lib/libfoo.so.1.0", "/usr/lib/libbar.so"]
    );
}

#[test]
fn sonames_in_dynamic_sections() {
    let first = " 0x01 (NEEDED) Shared library: [libc.so.6]
 0x0e (SONAME)             Library soname: [libfoo.so.1]
";
    let again = " 0x0e (SONAME) Library soname: [libfoo.so.1]\n";
    let other = " 0x0e (SONAME) Library soname: [libbar.so.2]\n (SONAME) no brackets\n ](SONAME)[\n";
    assert_eq!(
        get_installed_sonames(&texts(&[first, again, other])),
        ["libfoo.so.1", "libbar.so.2"]
    );
    assert!(get_installed_sonames(&Vec::new()).is_empty());
}

#[test]
fn mismatches_name_the_library_of_the_same_base() {
    let installed = texts(&["libfoo.so.2", "libbar.so.1"]);
    let found = check_soname_mismatches(
        &entries(&["libbar.so.1", "libfoo.so.1", "libgone.so.3"]),
        &installed,
    );
    assert_eq!(found.len(), 2);
    assert_eq!(found[0].registered, "libfoo.so.1");
    assert_eq!(found[0].installed, "libfoo.so.2");
    assert_eq!(found[1].registered, "libgone.so.3");
    assert_eq!(found[1].installed, "not found");
}

#[test]
fn no_mismatch_means_installed() {
    let installed = texts(&["libfoo.so.2", "libbar.so.1"]);
    let shlibs = entries(&["libfoo.so.2", "libbar.so.1"]);
    assert!(check_soname_mismatches(&shlibs, &installed).is_empty());
    assert!(check_soname_mismatches(&Vec::new(), &installed).is_empty());
    assert_eq!(check_soname_mismatches(&shlibs, &Vec::new()).len(), 2);
}

#[test]
fn an_update_registers_the_new_library() {
    let new = update_shlibs_file(REGISTER, &vec![update("libfoo.so.1", "libfoo.so.2", "foo-2.0_1")]);
    assert_eq!(new, REGISTER.replace("libfoo.so.1 foo-1.0_1", "libfoo.so.2 foo-2.0_1"));
    let foo = parse_shlibs(&new);
    assert_eq!(foo.get("foo").unwrap()[0].soname, "libfoo.so.2");
    assert_eq!(foo.get("foo").unwrap()[0].pkg_ver, "foo-2.0_1");
}

#[test]
fn an_update_leaves_the_other_lines() {
    let new = update_shlibs_file(REGISTER, &vec![update("libfoo-extra.so.1", "x.so.9", "x-1_1")]);
    let old_lines: Vec<&str> = REGISTER.lines().collect();
    let new_lines: Vec<&str> = new.lines().collect();
    assert_eq!(old_lines.len(), new_lines.len());
    for i in 0..old_lines.len() {
        if i == 2 {
            assert_eq!(new_lines[i], "x.so.9 x-1_1");
        } else {
            assert_eq!(new_lines[i], old_lines[i]);
        }
    }
}

#[test]
fn a_library_that_was_not_found_is_not_registered() {
    assert_eq!(
        update_shlibs_file(REGISTER, &vec![update("libfoo.so.1", "not found", "foo-2.0_1")]),
        REGISTER
    );
    assert_eq!(
        update_shlibs_file("libfoo.so.1 a-1_1", &vec![update("libfoo.so.1", "l.so", "b-1_1")]),
        "l.so b-1_1"
    );
    assert_eq!(update_shlibs_file("", &Vec::new()), "");
}
