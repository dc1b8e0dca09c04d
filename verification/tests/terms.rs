use maroon::terms::{classify_term, Rule};

fn rule(s: &'static str) -> Option<Rule> {
    classify_term(s)
}

#[test]
fn test() {
    assert_eq!(rule("test"), Some(Rule::lower_snake));
    assert_eq!(rule("foo_bar"), Some(Rule::lower_snake));
    assert_eq!(rule("i"), Some(Rule::lower_snake));
    assert_eq!(rule("i1"), Some(Rule::lower_snake));
    assert_eq!(rule("i_1"), Some(Rule::lower_snake));

    assert_eq!(rule("TEST"), Some(Rule::upper_snake));
    assert_eq!(rule("FOO_BAR"), Some(Rule::upper_snake));
    assert_eq!(rule("FOO_BAR_BAZ"), Some(Rule::upper_snake));
    assert_eq!(rule("I"), Some(Rule::upper_snake));
    assert_eq!(rule("I1"), Some(Rule::upper_snake));
    assert_eq!(rule("I_1"), Some(Rule::upper_snake));

    assert_eq!(rule("Test"), Some(Rule::camel_case));
    assert_eq!(rule("FooBar"), Some(Rule::camel_case));
    assert_eq!(rule("FooBarBaz"), Some(Rule::camel_case));
    assert_eq!(rule("FooBar1"), Some(Rule::camel_case));

    assert_eq!(rule("fooBar"), Some(Rule::camel_back));
    assert_eq!(rule("fooBarBaz"), Some(Rule::camel_back));
    assert_eq!(rule("fooBar1"), Some(Rule::camel_back));

    assert_eq!(rule("FooBar_1"), None);
    assert_eq!(rule("mixedCASE"), None);
    assert_eq!(rule("FAILStoo"), None);
    assert_eq!(rule("1foo"), None);
    assert_eq!(rule("1Foo"), None);
    assert_eq!(rule("fooBar_1"), None);
    assert_eq!(rule("fooBarBAZ"), None);
    assert_eq!(rule("fooBar_Baz"), None);
    assert_eq!(rule("_foo"), None);
    assert_eq!(rule("_FOO"), None);
    assert_eq!(rule("_Foo"), None);
}

#[test]
fn terms_of_the_sample_line_are_all_classified() {
    let line = "i,J,k1,Q1,t_7,z_9,foo_bar,FOO_BAR,a_b_1,C_D_4,e_f5,G_H6,UPPER";
    for t in line.split(',') {
        assert!(classify_term(t).is_some(), "{t}");
    }
    assert_eq!(classify_term("J"), Some(Rule::upper_snake));
    assert_eq!(classify_term("e_f5"), Some(Rule::lower_snake));
}

#[test]
fn empty_and_double_underscore_terms_are_refused() {
    assert_eq!(classify_term(""), None);
    assert_eq!(classify_term("foo__bar"), None);
    assert_eq!(classify_term("foo_"), None);
    assert_eq!(classify_term("FOO_"), None);
}
