use sonic262::assemble::concat_contents;
use sonic262::assemble::full_include_list;
use sonic262::assemble::generate_final_file_to_test;

#[test]
fn full_list_prepends_mandatory_pair() {
    let declared = vec![String::from("c.js"), String::from("d.js")];
    let full = full_include_list(&declared);
    assert_eq!(
        full,
        vec![
            String::from("assert"),
            String::from("sta"),
            String::from("c.js"),
            String::from("d.js"),
        ]
    );
}

#[test]
fn full_list_of_nothing_is_the_mandatory_pair() {
    let full = full_include_list(&Vec::new());
    assert_eq!(full, vec![String::from("assert"), String::from("sta")]);
}

#[test]
fn contents_join_with_a_newline_after_each() {
    let parts = vec![String::from("A"), String::from("B")];
    assert_eq!(concat_contents(&parts), "A\nB\n");
    assert_eq!(concat_contents(&Vec::new()), "");
}

#[test]
fn body_is_appended_last_unchanged() {
    let prelude = String::from("A\nB\n");
    assert_eq!(generate_final_file_to_test(prelude, "body();"), "A\nB\nbody();");
}

#[test]
fn assembly_order_is_deterministic() {
    let parts = vec![
        String::from("A"),
        String::from("B"),
        String::from("C"),
        String::from("D"),
    ];
    let first = generate_final_file_to_test(concat_contents(&parts), "T");
    let second = generate_final_file_to_test(concat_contents(&parts), "T");
    assert_eq!(first, "A\nB\nC\nD\nT");
    assert_eq!(first, second);
}
