use modav_core::repr::arrow::{ArrayText, DataType};

fn texts(values: &[Option<&str>]) -> Vec<Option<String>> {
    values.iter().map(|v| v.map(|s| s.to_string())).collect()
}

#[test]
fn arraytext_test_partial_eq() {
    let one = texts(&[
        Some("For the faith,"),
        None,
        Some("For the way of the sword"),
        None,
        Some("Come and tell their story again"),
    ]);
    let one = ArrayText::new(one);
    assert!(!one.all_null());

    // Zero: Self equality
    assert!(one == one);
    assert!(one == one.clone());

    // One: Perfect case
    let two = texts(&[
        Some("For the faith,"),
        None,
        Some("For the way of the sword"),
        None,
        Some("Come and tell their story again"),
    ]);
    let two = ArrayText::new(two);

    assert!(one == two);
    // One: Symmetry
    assert!(two == one);

    // Two: Varying order
    let two = texts(&[
        None,
        None,
        Some("For the faith,"),
        Some("For the way of the sword"),
        Some("Come and tell their story again"),
    ]);
    let two = ArrayText::new(two);

    assert!(one != two);

    // Two: Varying order
    let two = texts(&[
        Some("For the faith,"),
        Some("For the way of the sword"),
        Some("Come and tell their story again"),
        None,
        None,
    ]);
    let two = ArrayText::new(two);

    assert!(one != two);

    // Two: Varying order
    let two = vec!["Welcome", "To Cosco", "I love you 💚"];
    let two = ArrayText::from_str_iter(two);
    let three = vec!["I love you 💚", "Welcome", "To Cosco"];
    let three = ArrayText::from_str_iter(three);

    assert!(three != two);

    // Four: Varying length
    let two = texts(&[
        Some("For the faith,"),
        Some("For the way of the sword"),
        Some("Come and tell their story again"),
    ]);
    let two = ArrayText::new(two);

    assert!(one != two);

    // Five: Varying null count
    let two = texts(&[None, None, None, None, Some("For the faith")]);
    let two = ArrayText::new(two);

    assert!(one != two);

    // Six: Varying element values
    let two = texts(&[
        Some("Perversions of ideals of science"),
        None,
        Some("Lost words of alienated wife"),
        None,
        Some("... Maths or morality alone?"),
    ]);
    let two = ArrayText::new(two);
    let three = texts(&[
        Some("Where will this lead?"),
        None,
        Some("What's coming next"),
        None,
        Some("From your inventions?"),
    ]);
    let three = ArrayText::new(three);

    assert!(two != three);
}

#[test]
fn arraytext_test_into_iter() {
    let one = texts(&[
        Some("It was"),
        None,
        None,
        Some("The best"),
        Some("Of times."),
        None,
        Some("It was the worst"),
        Some("of times"),
    ]);

    let one = ArrayText::new(one);

    let mut iter = one.into_iter();

    assert_eq!(Some("It was".into()), iter.next().unwrap());
    assert_eq!(None, iter.next().unwrap());
    iter.next();
    assert_eq!(Some("The best".into()), iter.next().unwrap());
    assert_eq!(Some("Of times.".into()), iter.next().unwrap());
}

#[test]
fn arraytext_test_all_nulls() {
    let one: Vec<Option<String>> = vec![None, None, None, None, None];

    let one = ArrayText::new(one);

    assert!(one.all_null());

    assert_eq!(5, one.len());

    assert!(one.check_null(0));

    assert!(one.check_null(2));

    assert!(one.check_null(4));

    let mut iter = one.into_iter();

    assert_eq!(None, iter.next().unwrap());
    iter.next();
    assert_eq!(None, iter.next().unwrap())
}

#[test]
fn arraytext_test_empty() {
    let one: Vec<Option<String>> = vec![];
    let one = ArrayText::new(one);

    assert!(one.is_empty());
    assert_eq!(0, one.len());
}

#[test]
fn arraytext_reads_back_what_was_stored() {
    let one = ArrayText::new(texts(&[Some("a"), None, Some("héllo 💚"), Some("")]));
    assert_eq!(4, one.len());
    assert_eq!(Some("a"), one.get_ref(0));
    assert_eq!(None, one.get_ref(1));
    assert_eq!(Some("héllo 💚".to_string()), one.get(2));
    assert_eq!(Some(""), one.get_ref(3));
    assert_eq!(None, one.get(4));
    assert!(!one.check_null(0));
    assert!(one.check_null(1));
    assert!(!one.check_null(3));
    assert_eq!(DataType::Text, one.data_type());
}

#[test]
fn arraytext_all_empty_texts_are_null() {
    let one = ArrayText::new(texts(&[Some(""), Some("")]));
    assert!(one.all_null());
    assert_eq!(None, one.get_ref(0));
    assert!(one == ArrayText::new(texts(&[None, None])));
}

#[test]
fn arraytext_validity_spans_bytes() {
    let mut cells: Vec<Option<String>> = Vec::new();
    for i in 0..19 {
        if i % 3 == 0 {
            cells.push(None);
        } else {
            cells.push(Some(format!("cell {i}")));
        }
    }
    let one = ArrayText::new(cells.clone());
    for i in 0..19 {
        assert_eq!(i % 3 == 0, one.check_null(i));
        assert_eq!(cells[i], one.get(i));
    }
    assert_eq!(cells, one.to_vec());
}

#[test]
fn arraytext_iter_counts_down() {
    let one = ArrayText::from_strings(vec!["x".to_string(), "y".to_string()]);
    let mut iter = one.iter();
    assert_eq!(2, iter.len());
    assert_eq!(Some(Some("x")), iter.next());
    assert_eq!(1, iter.len());
    assert_eq!(Some(Some("y")), iter.next());
    assert_eq!(None, iter.next());
    assert_eq!(0, iter.len());
}
