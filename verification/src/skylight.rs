//! Window-server bookkeeping that needs no window server: space types,
//! status codes and the errors of loading the private framework.

use vstd::prelude::*;

use crate::text::{decimal, decimal_string};

verus! {

/// Errors of loading or calling the window server's private framework.
#[derive(Debug, Clone)]
pub enum SkyLightError {
    /// The framework could not be loaded.
    FrameworkNotFound,
    /// A symbol could not be found in the framework.
    SymbolNotFound(String),
    /// A CoreGraphics status code other than success.
    CGError(i32),
}

/// The kind of a space (virtual desktop).
#[derive(Clone, Copy, Debug, PartialEq, Eq, Structural, Hash)]
pub enum SpaceType {
    /// A regular desktop.
    User,
    /// A fullscreen application's space.
    Fullscreen,
    /// A system space.
    System,
}

/// The raw code of each space type.
pub open spec fn space_type_code(t: SpaceType) -> i32 {
    match t {
        SpaceType::User => 0,
        SpaceType::Fullscreen => 4,
        SpaceType::System => 7,
    }
}

/// The space type of a raw code: 0 is a user space, 4 a fullscreen space,
/// 7 a system space; any other code is none of them.
pub open spec fn space_type_of(value: i32) -> Option<SpaceType> {
    if value == 0 {
        Some(SpaceType::User)
    } else if value == 4 {
        Some(SpaceType::Fullscreen)
    } else if value == 7 {
        Some(SpaceType::System)
    } else {
        None
    }
}

/// Reading a space type's code gives the space type back.
pub proof fn law_space_type_round_trip(t: SpaceType)
    ensures
        space_type_of(space_type_code(t)) == Some(t),
{
}

impl SpaceType {
    /// The space type of a raw code.
    pub fn from_raw(value: i32) -> (r: Option<Self>)
        ensures
            r == space_type_of(value),
    {
        match value {
            0 => Some(SpaceType::User),
            4 => Some(SpaceType::Fullscreen),
            7 => Some(SpaceType::System),
            _ => None,
        }
    }

    /// The raw code of this space type.
    pub fn raw(&self) -> (r: i32)
        ensures
            r == space_type_code(*self),
    {
        match self {
            SpaceType::User => 0,
            SpaceType::Fullscreen => 4,
            SpaceType::System => 7,
        }
    }
}

/// A status code as a result: 0 is success, anything else an error.
pub fn cg_result(code: i32) -> (r: Result<(), SkyLightError>)
    ensures
        code == 0 <==> r is Ok,
        code != 0 ==> (r matches Err(SkyLightError::CGError(c)) && c == code),
{
    if code == 0 {
        Ok(())
    } else {
        Err(SkyLightError::CGError(code))
    }
}

/// The decimal numeral of a signed number: a minus sign before the digits
/// of its magnitude when it is negative.
pub open spec fn signed_decimal(n: int) -> Seq<char> {
    if n < 0 {
        seq!['-'] + decimal((-n) as nat)
    } else {
        decimal(n as nat)
    }
}

/// Writes a signed 32-bit number in decimal.
pub fn signed_decimal_string(n: i32) -> (r: String)
    ensures
        r@ == signed_decimal(n as int),
{
    if n < 0 {
        let magnitude: u64 = (-(n as i64)) as u64;
        let mut out = String::from_str("-");
        let digits = decimal_string(magnitude);
        out.append(digits.as_str());
        proof {
            reveal_strlit("-");
            assert(out@ =~= seq!['-'] + decimal(magnitude as nat));
        }
        out
    } else {
        decimal_string(n as u64)
    }
}

/// The message of an error.
pub open spec fn error_message(e: SkyLightError) -> Seq<char> {
    match e {
        SkyLightError::FrameworkNotFound => "failed to load SkyLight.framework (dlopen returned NULL)"@,
        SkyLightError::SymbolNotFound(sym) => "symbol not found in SkyLight.framework: "@ + sym@,
        SkyLightError::CGError(code) => "CoreGraphics error code "@ + signed_decimal(code as int),
    }
}

impl SkyLightError {
    /// The message of the error, for display.
    pub fn message(&self) -> (r: String)
        ensures
            r@ == error_message(*self),
    {
        match self {
            SkyLightError::FrameworkNotFound => String::from_str(
                "failed to load SkyLight.framework (dlopen returned NULL)",
            ),
            SkyLightError::SymbolNotFound(sym) => {
                let mut out = String::from_str("symbol not found in SkyLight.framework: ");
                out.append(sym.as_str());
                out
            },
            SkyLightError::CGError(code) => {
                let mut out = String::from_str("CoreGraphics error code ");
                let digits = signed_decimal_string(*code);
                out.append(digits.as_str());
                out
            },
        }
    }
}

/// The symbols that must be found in the framework, in the order they are
/// looked up.
pub open spec fn required_symbol_names() -> Seq<Seq<char>> {
    seq![
        "SLSMainConnectionID"@,
        "SLSGetActiveSpace"@,
        "SLSCopyManagedDisplaySpaces"@,
        "SLSCopyManagedDisplayForSpace"@,
        "SLSSpaceGetType"@,
        "SLSCopyManagedDisplays"@,
        "SLSSpaceCreate"@,
        "SLSSpaceDestroy"@,
        "SLSMoveWindowsToManagedSpace"@,
        "SLSAddWindowsToSpaces"@,
        "SLSRemoveWindowsFromSpaces"@,
        "SLSCopySpacesForWindows"@,
        "SLSSetWindowAlpha"@,
        "SLSSetWindowLevel"@,
        "SLSOrderWindow"@,
        "SLSGetWindowBounds"@,
    ]
}

/// The symbols that must be found in the framework, in lookup order.
pub fn required_symbols() -> (r: Vec<&'static str>)
    ensures
        r@.len() == required_symbol_names().len(),
        forall|i: int| 0 <= i < r@.len() ==> #[trigger] r@[i]@ == required_symbol_names()[i],
{
    let mut v: Vec<&'static str> = Vec::new();
    v.push("SLSMainConnectionID");
    v.push("SLSGetActiveSpace");
    v.push("SLSCopyManagedDisplaySpaces");
    v.push("SLSCopyManagedDisplayForSpace");
    v.push("SLSSpaceGetType");
    v.push("SLSCopyManagedDisplays");
    v.push("SLSSpaceCreate");
    v.push("SLSSpaceDestroy");
    v.push("SLSMoveWindowsToManagedSpace");
    v.push("SLSAddWindowsToSpaces");
    v.push("SLSRemoveWindowsFromSpaces");
    v.push("SLSCopySpacesForWindows");
    v.push("SLSSetWindowAlpha");
    v.push("SLSSetWindowLevel");
    v.push("SLSOrderWindow");
    v.push("SLSGetWindowBounds");
    v
}

/// The symbol that switches spaces; it may be missing.
pub const SWITCH_SYMBOL: &'static str = "SLSSpaceSwitchToSpace";

/// The outcome of loading the framework, from what was found: the framework
/// itself, then each required symbol in lookup order. The first thing
/// missing is the error.
pub fn load_outcome(framework_found: bool, symbols_found: &Vec<bool>) -> (r: Result<(), SkyLightError>)
    requires
        symbols_found@.len() == required_symbol_names().len(),
    ensures
        !framework_found ==> (r matches Err(SkyLightError::FrameworkNotFound)),
        framework_found ==> (r is Ok <==> forall|i: int| 0 <= i < symbols_found@.len() ==> #[trigger] symbols_found@[i]),
        framework_found ==> (r matches Err(e) ==> exists|i: int|
            0 <= i < symbols_found@.len() && !symbols_found@[i]
                && (forall|j: int| 0 <= j < i ==> #[trigger] symbols_found@[j])
                && (e matches SkyLightError::SymbolNotFound(s) && s@ == required_symbol_names()[i])),
{
    if !framework_found {
        return Err(SkyLightError::FrameworkNotFound);
    }
    let names = required_symbols();
    let mut i: usize = 0;
    while i < symbols_found.len()
        invariant
            framework_found,
            symbols_found@.len() == names@.len(),
            names@.len() == required_symbol_names().len(),
            forall|k: int| 0 <= k < names@.len() ==> #[trigger] names@[k]@ == required_symbol_names()[k],
            i <= symbols_found@.len(),
            forall|j: int| 0 <= j < i ==> #[trigger] symbols_found@[j],
        decreases symbols_found@.len() - i,
    {
        if !symbols_found[i] {
            let e = SkyLightError::SymbolNotFound(String::from_str(names[i]));
            proof {
                assert(names@[i as int]@ == required_symbol_names()[i as int]);
            }
            return Err(e);
        }
        i = i + 1;
    }
    Ok(())
}

} // verus!
