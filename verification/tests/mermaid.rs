use maroon::mermaid::Canvas;

#[test]
fn the_sample_diagram() {
    let mut canvas = Canvas::new();

    let foo = canvas.new_participant("foo");
    foo.destroy(&mut canvas);

    let bar = canvas.new_participant("bar");
    let baz = canvas.new_participant("baz");
    bar.add_arrow_to(&mut canvas, &baz, "Hello!");
    baz.destroy(&mut canvas);
    bar.destroy(&mut canvas);

    let meh = canvas.new_participant("meh");
    let blah = canvas.new_participant("blah");
    blah.add_arrow_to(&mut canvas, &meh, "Whoa!");
    blah.destroy(&mut canvas);
    meh.destroy(&mut canvas);

    let expected = "sequenceDiagram
    create participant I0 as root
    autonumber
    create participant I1 as foo
    I0-->>I1: create
    destroy I1
    I1-->>I0: destroy
    create participant I2 as bar
    I0-->>I2: create
    create participant I3 as baz
    I0-->>I3: create
    I2->>I3: Hello!
    destroy I3
    I3-->>I0: destroy
    destroy I2
    I2-->>I0: destroy
    create participant I4 as meh
    I0-->>I4: create
    create participant I5 as blah
    I0-->>I5: create
    I5->>I4: Whoa!
    destroy I5
    I5-->>I0: destroy
    destroy I4
    I4-->>I0: destroy
";
    assert_eq!(canvas.contents(), expected);

    let mut seen = String::new();
    canvas.output(|s| seen = s.clone());
    assert_eq!(seen, expected);
}

#[test]
fn a_new_canvas_has_only_the_root() {
    let canvas = Canvas::new();
    assert_eq!(canvas.contents(), "sequenceDiagram\n    create participant I0 as root\n    autonumber\n");
}

#[test]
fn participants_are_numbered_in_creation_order() {
    let mut canvas = Canvas::new();
    let a = canvas.new_participant("a");
    let b = canvas.new_participant("b");
    b.add_arrow_to(&mut canvas, &a, "x");
    a.add_arrow_to(&mut canvas, &a, "self");
    assert!(canvas.contents().ends_with("    I2->>I1: x\n    I1->>I1: self\n"));
    a.destroy(&mut canvas);
    b.destroy(&mut canvas);
}
