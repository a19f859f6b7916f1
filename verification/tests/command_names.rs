use track::commands::{
    Complete, CompleteCurrent, CompleteValue, Groups, New, NewValue, Remove, RemoveValue, Start,
    StartValue, Stop, Tasks, Tomorrow, Use, UseReset, UseValue,
};

#[test]
fn commands_are_spelled_as_the_command_line_has_them() {
    assert_eq!(New::name(), "new");
    assert_eq!(Remove::name(), "remove");
    assert_eq!(Tasks::name(), "tasks");
    assert_eq!(Groups::name(), "groups");
    assert_eq!(Use::name(), "use");
    assert_eq!(Start::name(), "start");
    assert_eq!(Stop::name(), "stop");
    assert_eq!(Tomorrow::name(), "tmrw");
    assert_eq!(Complete::name(), "complete");
}

#[test]
fn arguments_are_spelled_as_the_command_line_has_them() {
    assert_eq!(NewValue::name(), "new-value");
    assert_eq!(RemoveValue::name(), "remove-value");
    assert_eq!(UseValue::name(), "use-value");
    assert_eq!(UseReset::name(), "use-reset");
    assert_eq!(StartValue::name(), "start-value");
    assert_eq!(CompleteValue::name(), "complete-value");
    assert_eq!(CompleteCurrent::name(), "complete-curr");
}

#[test]
fn names_are_distinct() {
    let names = vec![
        New::name(),
        NewValue::name(),
        Remove::name(),
        RemoveValue::name(),
        Tasks::name(),
        Groups::name(),
        Use::name(),
        UseValue::name(),
        UseReset::name(),
        Start::name(),
        StartValue::name(),
        Stop::name(),
        Tomorrow::name(),
        Complete::name(),
        CompleteValue::name(),
        CompleteCurrent::name(),
    ];
    for i in 0..names.len() {
        for j in 0..i {
            assert_ne!(names[i], names[j]);
        }
    }
}
