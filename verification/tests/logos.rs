use semcode::logos::{lower_logos_laws_to_ir, LogosLaw};

fn law(name: &str, priority: u32, when_count: usize) -> LogosLaw {
    LogosLaw { name: name.to_string(), priority, when_count }
}

#[test]
fn laws_are_listed_by_priority_keeping_ties_in_order() {
    let laws = vec![law("a", 1, 0), law("b", 3, 2), law("c", 1, 1), law("d", 3, 0)];
    let out = lower_logos_laws_to_ir(&laws);
    let names: Vec<&str> = out.iter().map(|l| l.name.as_str()).collect();
    assert_eq!(names, vec!["b", "d", "a", "c"]);
    assert_eq!(out[0].when_count, 2);
    assert_eq!(out[3].priority, 1);
    assert!(lower_logos_laws_to_ir(&[]).is_empty());
}
