use novelscript::{Novel, SceneNodeData, SceneNodeLoad, SceneNodeUser};

fn setup(s: &str) -> Novel {
    let mut novel = Novel::new();
    novel.add_scene("test".into(), s).unwrap();
    novel
}

fn text(speaker: Option<&str>, content: &str) -> Option<SceneNodeUser> {
    Some(SceneNodeUser::Data(SceneNodeData::Text {
        speaker: speaker.map(String::from),
        content: content.into(),
    }))
}

#[test]
fn test_text() {
    let novel = setup(
        r#"

foo: test
_: test

    "#,
    );
    let mut state = novel.new_state("test");

    assert_eq!(novel.next(&mut state).unwrap(), text(Some("foo"), "test"));
    assert_eq!(novel.next(&mut state).unwrap(), text(None, "test"));
}

#[test]
fn test_special_text() {
    let novel = setup(
        r#"

foo: "test"
_: test? what!
foo: hmm... what if, you say test

    "#,
    );
    let mut state = novel.new_state("test");

    assert_eq!(novel.next(&mut state).unwrap(), text(Some("foo"), "\"test\""));
    assert_eq!(novel.next(&mut state).unwrap(), text(None, "test? what!"));
}

#[test]
fn test_if() {
    let novel = setup(
        r#"

if num = 13
    _: first
end

    "#,
    );
    let mut state = novel.new_state("test");

    state.set_variable("num".into(), 13).unwrap();

    assert_eq!(novel.next(&mut state).unwrap(), text(None, "first"));
    assert_eq!(novel.next(&mut state).unwrap(), None);
}

#[test]
fn test_negative_if() {
    let novel = setup(
        r#"

if num = 17
    _: first
end

    "#,
    );
    let mut state = novel.new_state("test");

    state.set_variable("num".into(), 13).unwrap();

    assert_eq!(novel.next(&mut state).unwrap(), None);
}

#[test]
fn test_remove() {
    let novel = setup(
        r#"

remove Foo

    "#,
    );
    let mut state = novel.new_state("test");

    state.set_variable("num".into(), 13).unwrap();

    assert_eq!(
        novel.next(&mut state).unwrap(),
        Some(SceneNodeUser::Load(SceneNodeLoad::RemoveCharacter { name: "Foo".into() }))
    );
}

#[test]
fn test_nested_if() {
    let novel = setup(
        r#"

if num = 13
    _: first
    if num2 = 17
        _: second
    end
end

    "#,
    );
    let mut state = novel.new_state("test");

    state.set_variable("num".into(), 13).unwrap();
    state.set_variable("num2".into(), 17).unwrap();

    assert_eq!(novel.next(&mut state).unwrap(), text(None, "first"));
    assert_eq!(novel.next(&mut state).unwrap(), text(None, "second"));
    assert_eq!(novel.next(&mut state).unwrap(), None);
}

#[test]
fn test_choice() {
    let novel = setup(
        r#"

[x / y]
if choice = 1
    _: first
end
if choice = 2
    _: second
end

    "#,
    );
    let mut state = novel.new_state("test");

    assert_eq!(
        novel.next(&mut state).unwrap(),
        Some(SceneNodeUser::Data(SceneNodeData::Choice(vec!["x".into(), "y".into()])))
    );
    state.set_choice(1);
    assert_eq!(novel.next(&mut state).unwrap(), text(None, "first"));
    assert_eq!(novel.next(&mut state).unwrap(), None);
}

#[test]
fn test_nested_choices() {
    let novel = setup(
        r#"

[x / y]
if choice = 1
    _: first
    [a / b]
end
if choice = 2
    _: second
end

    "#,
    );
    let mut state = novel.new_state("test");

    assert_eq!(
        novel.next(&mut state).unwrap(),
        Some(SceneNodeUser::Data(SceneNodeData::Choice(vec!["x".into(), "y".into()])))
    );
    state.set_choice(1);
    assert_eq!(novel.next(&mut state).unwrap(), text(None, "first"));
    assert_eq!(
        novel.next(&mut state).unwrap(),
        Some(SceneNodeUser::Data(SceneNodeData::Choice(vec!["a".into(), "b".into()])))
    );
    state.set_choice(1);
    assert_eq!(novel.next(&mut state).unwrap(), None);
}

#[test]
fn test_load_character_and_background() {
    let novel = setup(
        r#"

Foo: Hello Bar
load Bar {
    expression Normal
    placement Center
}
Bar: Hello Foo
scene Night
set Bar expression Cold
Foo: It is now night

    "#,
    );
    let mut state = novel.new_state("test");

    assert_eq!(novel.next(&mut state).unwrap(), text(Some("Foo"), "Hello Bar"));
    assert_eq!(
        novel.next(&mut state).unwrap(),
        Some(SceneNodeUser::Load(SceneNodeLoad::Character {
            character: "Bar".into(),
            expression: Some("Normal".into()),
            placement: Some("Center".into()),
        }))
    );
    assert_eq!(novel.next(&mut state).unwrap(), text(Some("Bar"), "Hello Foo"));
    assert_eq!(
        novel.next(&mut state).unwrap(),
        Some(SceneNodeUser::Load(SceneNodeLoad::Background { name: "Night".into() }))
    );
    assert_eq!(
        novel.next(&mut state).unwrap(),
        Some(SceneNodeUser::Load(SceneNodeLoad::Character {
            character: "Bar".into(),
            expression: Some("Cold".into()),
            placement: None,
        }))
    );
    assert_eq!(novel.next(&mut state).unwrap(), text(Some("Foo"), "It is now night"));
}

#[test]
fn test_sound() {
    let novel = setup(
        r#"

play test on sfx
play noise on sfx
play relax on music
play test on music

    "#,
    );
    let mut state = novel.new_state("test");

    let sound = |name: &str, channel: &str| {
        Some(SceneNodeUser::Load(SceneNodeLoad::PlaySound {
            name: name.into(),
            channel: Some(channel.into()),
        }))
    };
    assert_eq!(novel.next(&mut state).unwrap(), sound("test", "sfx"));
    assert_eq!(novel.next(&mut state).unwrap(), sound("noise", "sfx"));
    assert_eq!(novel.next(&mut state).unwrap(), sound("relax", "music"));
    assert_eq!(novel.next(&mut state).unwrap(), sound("test", "music"));
}

#[test]
fn test_jump() {
    let mut novel = Novel::new();
    novel
        .add_scene(
            "test".into(),
            r#"

foo: test
_: test
jump test2

    "#,
        )
        .unwrap();
    novel
        .add_scene(
            "test2".into(),
            r#"

foo: it is test2
_: indeed

    "#,
        )
        .unwrap();
    let mut state = novel.new_state("test");

    assert_eq!(novel.next(&mut state).unwrap(), text(Some("foo"), "test"));
    assert_eq!(novel.next(&mut state).unwrap(), text(None, "test"));
    assert_eq!(novel.next(&mut state).unwrap(), text(Some("foo"), "it is test2"));
    assert_eq!(novel.next(&mut state).unwrap(), text(None, "indeed"));
}
