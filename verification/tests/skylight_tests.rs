use mosaic::sa::ScriptingAddition;
use mosaic::skylight::{cg_result, load_outcome, required_symbols, SkyLightError, SpaceType};

#[test]
fn space_types_read_from_their_codes() {
    assert_eq!(SpaceType::from_raw(0), Some(SpaceType::User));
    assert_eq!(SpaceType::from_raw(4), Some(SpaceType::Fullscreen));
    assert_eq!(SpaceType::from_raw(7), Some(SpaceType::System));
    assert_eq!(SpaceType::from_raw(1), None);
    assert_eq!(SpaceType::from_raw(-7), None);
    for t in [SpaceType::User, SpaceType::Fullscreen, SpaceType::System] {
        assert_eq!(SpaceType::from_raw(t.raw()), Some(t));
    }
}

#[test]
fn status_codes_become_results() {
    assert!(cg_result(0).is_ok());
    assert!(matches!(cg_result(1000), Err(SkyLightError::CGError(1000))));
    assert!(matches!(cg_result(-1), Err(SkyLightError::CGError(-1))));
}

#[test]
fn errors_have_messages() {
    assert_eq!(SkyLightError::FrameworkNotFound.message(), "failed to load SkyLight.framework (dlopen returned NULL)");
    assert_eq!(
        SkyLightError::SymbolNotFound("SLSOrderWindow".to_string()).message(),
        "symbol not found in SkyLight.framework: SLSOrderWindow"
    );
    assert_eq!(SkyLightError::CGError(-25204).message(), "CoreGraphics error code -25204");
    assert_eq!(SkyLightError::CGError(1000).message(), "CoreGraphics error code 1000");
    assert_eq!(SkyLightError::CGError(i32::MIN).message(), "CoreGraphics error code -2147483648");
}

#[test]
fn loading_fails_at_the_first_missing_piece() {
    let all = vec![true; required_symbols().len()];
    assert!(load_outcome(true, &all).is_ok());
    assert!(matches!(load_outcome(false, &all), Err(SkyLightError::FrameworkNotFound)));
    let mut missing = all.clone();
    missing[2] = false;
    missing[5] = false;
    match load_outcome(true, &missing) {
        Err(SkyLightError::SymbolNotFound(name)) => assert_eq!(name, "SLSCopyManagedDisplaySpaces"),
        _ => panic!("expected a missing symbol"),
    }
    assert_eq!(required_symbols().len(), 16);
    assert_eq!(required_symbols()[0], "SLSMainConnectionID");
}

#[test]
fn scripting_addition_answers() {
    let client = ScriptingAddition::from_lookup(0, 42).unwrap();
    assert_eq!(client.port(), 42);
    assert!(ScriptingAddition::from_lookup(1102, 42).is_none());
    assert_eq!(ScriptingAddition::move_result(0), Ok(()));
    assert_eq!(ScriptingAddition::move_result(5), Err(5));
}
