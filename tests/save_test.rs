use novelscript::{Novel, NovelState, SceneNodeData, SceneNodeUser};

#[test]
fn test_save_load() {
    let s = r#"
        
            foo: test
            _: test
            bar: test

        "#;
    let saved = {
        let mut novel = Novel::new();

        novel.add_scene("test".into(), s).unwrap();

        let mut state = novel.new_state("test");

        assert_eq!(
            novel.next(&mut state).unwrap(),
            Some(SceneNodeUser::Data(SceneNodeData::Text {
                speaker: Some("foo".into()),
                content: "test".into(),
            }))
        );

        assert_eq!(
            novel.next(&mut state).unwrap(),
            Some(SceneNodeUser::Data(SceneNodeData::Text {
                speaker: None,
                content: "test".into(),
            }))
        );

        state.save()
    };

    let mut state = NovelState::restore(saved).unwrap();

    let mut novel = Novel::new();

    novel.add_scene("test".into(), s).unwrap();

    assert_eq!(
        novel.next(&mut state).unwrap(),
        Some(SceneNodeUser::Data(SceneNodeData::Text {
            speaker: Some("bar".into()),
            content: "test".into(),
        }))
    );
}
