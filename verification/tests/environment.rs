use crate_graph::environment::Environment;

#[test]
fn configuration_environment_as_str() {
    assert_eq!(Environment::Local.as_str(), "local");
    assert_eq!(Environment::Production.as_str(), "production");
}

#[test]
fn configuration_environment_try_from() {
    assert_eq!(Environment::try_from("local".to_owned()), Ok(Environment::Local));
    assert_eq!(
        Environment::try_from("production".to_owned()),
        Ok(Environment::Production)
    );
    assert_eq!(
        Environment::try_from("other".to_owned()),
        Err("other is not a supported environment. Use either `local` or `production`.".to_owned())
    );
}

#[test]
fn environment_environment_as_str() {
    assert_eq!(Environment::Local.as_str(), "local");
    assert_eq!(Environment::Production.as_str(), "production");
}

#[test]
fn environment_environment_try_from() {
    assert_eq!(Environment::try_from("local".to_owned()), Ok(Environment::Local));
    assert_eq!(
        Environment::try_from("production".to_owned()),
        Ok(Environment::Production)
    );
    assert_eq!(
        Environment::try_from("other".to_owned()),
        Err("other is not a supported environment. Use either `local` or `production`.".to_owned())
    );
}

#[test]
fn environment_try_from_ignores_case() {
    assert_eq!(Environment::try_from("LOCAL".to_owned()), Ok(Environment::Local));
    assert_eq!(
        Environment::try_from("Production".to_owned()),
        Ok(Environment::Production)
    );
    assert_eq!(
        Environment::try_from("OTHER".to_owned()),
        Err("other is not a supported environment. Use either `local` or `production`.".to_owned())
    );
}
