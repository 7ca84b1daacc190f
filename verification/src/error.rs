//! Errors reported while parsing and checking an application

use vstd::prelude::*;

verus! {

/// What went wrong; each variant's documentation gives its message
#[derive(Clone, Copy, Debug, PartialEq, Eq, Structural)]
pub enum ErrorKind {
    // ---- token level ----
    /// "expected identifier"
    ExpectedIdent,
    /// "expected `=`"
    ExpectedEq,
    /// "expected `,`"
    ExpectedComma,
    /// "expected parentheses"
    ExpectedParens,
    /// "expected square brackets"
    ExpectedBrackets,
    /// "expected integer literal"
    ExpectedIntLiteral,
    /// "expected boolean literal"
    ExpectedBoolLiteral,
    /// "expected expression"
    ExpectedExpression,
    /// "unexpected token"
    UnexpectedToken,
    /// the text is not a token stream (unbalanced delimiters, unterminated literal)
    LexError,
    /// the `#[app]` module failed to parse; `at` holds the parser's message
    Syntax,
    /// "this kind of literal is not supported": a C-string literal, or a
    /// literal that does not read again as one (an escape the compiler
    /// already refused)
    UnsupportedLiteral,
    /// "expected `mod`": the input must be a module with a body
    ExpectedModule,
    /// "expected an item": the module's body holds something that is not an
    /// item (an inner attribute, or an item whose end is missing)
    ExpectedItem,
    // ---- attribute arguments ----
    /// "argument appears more than once"
    ArgumentAppearsMoreThanOnce,
    /// "unexpected argument"
    UnexpectedArgument,
    /// "hardware tasks can't use the `capacity` argument"
    HardwareTaskCapacity,
    /// "this literal must be unsuffixed"
    LiteralMustBeUnsuffixed,
    /// "this literal must be in the range 1...255"
    LiteralOutOfRange,
    /// "identifier appears more than once in list"
    IdentifierAppearsMoreThanOnce,
    /// "resource must be an identifier, not a path"
    ResourceMustBeIdentifier,
    /// "resource appears more than once in list"
    ResourceAppearsMoreThanOnce,
    /// "`binds = ...` is missing"
    BindsMissing,
    /// "unexpected argument value; this should be a path"
    ValueShouldBePath,
    /// "unexpected argument value; this should be a boolean"
    ValueShouldBeBool,
    /// "unexpected argument value; expected an array"
    ValueShouldBeArray,
    /// "interrupt must be an identifier, not a path"
    InterruptMustBeIdentifier,
    /// "interrupt must be an identifier"
    InterruptMustBeIdent,
    /// "this extern interrupt is listed more than once"
    InterruptListedMoreThanOnce,
    // ---- items of the module ----
    /// "`#[init]` function must appear at most once"
    InitAtMostOnce,
    /// "`#[idle]` function must appear at most once"
    IdleAtMostOnce,
    /// "the task is defined multiple times"
    TaskDefinedMultipleTimes,
    /// "this interrupt is already bound"
    InterruptAlreadyBound,
    /// "this identifier has already been used"
    IdentifierAlreadyUsed,
    /// "this type is already used by another monotonic"
    MonotonicTypeAlreadyUsed,
    /// "`#[monotonic(...)]` on a specific type must appear at most once"
    MonotonicAtMostOnce,
    /// "Monotonic does not support attributes other than `#[cfg]`"
    MonotonicAttributes,
    /// "this item must have inherited / private visibility"
    ItemVisibility,
    /// "this field must have inherited / private visibility"
    FieldVisibility,
    /// "this resource is listed more than once"
    ResourceListedMoreThanOnce,
    /// "this `struct` must have named fields"
    StructNamedFields,
    /// "this `extern` block must use the \"Rust\" ABI"
    ExternBlockAbi,
    /// "`extern` task required `#[task(..)]` attribute"
    ExternTaskAttribute,
    /// "this item must live outside the `#[app]` module"
    ItemOutsideApp,
    /// "this `#[init]` function must have signature `fn({name}::Context) ->
    /// (Shared resources struct, Local resources struct, {name}::Monotonics)`"
    InitSignature,
    /// "this `#[idle]` function must have signature `fn({name}::Context) -> !`"
    IdleSignature,
    /// "the task handler must have type signature `fn({name}::Context, ..)`"
    TaskSignature,
    /// "tasks cannot be named `init` or `idle`"
    TaskNamedInitOrIdle,
    /// "extern interrupts must have type signature `fn()`"
    ExternInterruptSignature,
    /// "not a type": a local declared in a list must read `name: Type = expr`
    NotAType,
    /// "unsupported type, must be an array, tuple, pointer or type path"
    UnsupportedLocalType,
    /// "`#[shared]` struct must appear at most once"
    SharedStructAtMostOnce,
    /// "`#[local]` struct must appear at most once"
    LocalStructAtMostOnce,
    /// "`#[actors]` struct must appear at most once"
    ActorsStructAtMostOnce,
    /// "No `#[shared]` resource struct defined"
    NoSharedStruct,
    /// "No `#[local]` resource struct defined"
    NoLocalStruct,
    /// "No `#[init]` function defined"
    NoInit,
    /// "This name and the one defined on `#[shared]` are not the same. Should
    /// this be `{name}`?", with the `#[shared]` struct's name
    SharedNameMismatch,
    /// "This name and the one defined on `#[local]` are not the same. Should
    /// this be `{name}`?", with the `#[local]` struct's name
    LocalNameMismatch,
    /// "This name and the one defined on `#[actors]` are not the same. Should
    /// this be `{name}`?", with the `#[actors]` struct's name
    ActorsNameMismatch,
    /// "a `#[actors]` struct named `{name}` needs to be defined", with the
    /// name that `init` returns
    ActorsStructMissing,
    /// "`#[init]` return type needs to include `{name}` as the 4th tuple
    /// element ", with the `#[actors]` struct's name
    ActorsNotReturned,
    /// "`#[cfg]` is not allowed on actors"
    CfgOnActor,
    /// "only one `#[priority]` attribute is allowed on an actor"
    PriorityAtMostOnce,
    /// "only one `#[init]` attribute is allowed on an actor"
    ActorInitAtMostOnce,
    /// "this attribute is not supported on actor declarations"
    ActorAttribute,
    /// "expected type"
    ExpectedType,
    /// "not a `u8` value"
    NotAU8,
    /// "expected `capacity`, found `{name}`"
    ExpectedCapacity,
    /// "this `static` is listed more than once"
    StaticListedMoreThanOnce,
    /// "only `static mut` variables are allowed at the beginning of functions"
    OnlyStaticMut,
    // ---- checks on the whole application ----
    /// "this resource has NOT been declared"
    ResourceNotDeclared,
    /// "late resources can NOT be assigned to `init`"
    LateResourceAssignedToInit,
    /// "no late resources exist so this function must NOT return `LateResources`"
    MustNotReturnLateResources,
    /// "late resources exist so `#[init]` must return `init::LateResources`"
    MustReturnLateResources,
    /// "late resources exist so a `#[init]` function must be defined"
    InitRequired,
    /// "no more late resources to initialize; this function must NOT return `LateResources`"
    NoMoreLateResources,
    /// "this is not a late resource"
    NotALateResource,
    /// "this resource is initialized by core {0}"
    InitializedByCore(u8),
    /// "unclear how initialization of late resources is split between cores {0} and {1}"
    UnclearSplit(u8, u8),
    /// "this resource is not being initialized"
    NotBeingInitialized,
    /// "the task has NOT been declared"
    TaskNotDeclared,
    // ---- limits of the analysis ----
    /// "the capacities of the tasks and subscriptions of one priority add up to more than 255"
    CapacityOverflow,
    /// "a core uses more than 255 distinct priorities"
    TooManyPriorities,
}

/// An error, and the text of the name or token it points to (empty where it
/// points to no token in particular)
#[derive(Debug)]
pub struct Error {
    /// What went wrong
    pub kind: ErrorKind,
    /// The name or token text the error points to
    pub at: String,
}

/// An error pointing to the token text `at`
pub fn error_at(kind: ErrorKind, at: &String) -> (e: Error)
    ensures
        e.kind == kind,
        e.at@ == at@,
{
    Error { kind, at: at.clone() }
}

/// An error pointing to no token in particular
pub fn error_here(kind: ErrorKind) -> (e: Error)
    ensures
        e.kind == kind,
        e.at@ == Seq::<char>::empty(),
{
    Error { kind, at: String::new() }
}

/// The value of an error: its kind and the text it points to
pub type ErrV = (ErrorKind, Seq<char>);

impl View for Error {
    type V = ErrV;

    open spec fn view(&self) -> ErrV {
        (self.kind, self.at@)
    }
}

/// The value of a result
pub open spec fn res_view<T: View>(r: Result<T, Error>) -> Result<T::V, ErrV> {
    match r {
        Ok(v) => Ok(v@),
        Err(e) => Err(e@),
    }
}

/// An error pointing to the text `at`
pub fn error_str(kind: ErrorKind, at: &str) -> (e: Error)
    ensures
        e@ == (kind, at@),
{
    Error { kind, at: String::from_str(at) }
}

/// The text of the decimal digit `d`
pub open spec fn digit(d: nat) -> Seq<char> {
    if d == 0 { "0"@ } else if d == 1 { "1"@ } else if d == 2 { "2"@ } else if d == 3 { "3"@ }
    else if d == 4 { "4"@ } else if d == 5 { "5"@ } else if d == 6 { "6"@ } else if d == 7 { "7"@ }
    else if d == 8 { "8"@ } else { "9"@ }
}

/// The decimal text of `n`, without leading zeros
pub open spec fn decimal(n: nat) -> Seq<char>
    decreases n,
{
    if n < 10 {
        digit(n)
    } else {
        decimal(n / 10) + digit(n % 10)
    }
}

/// The message an error is reported with: its kind's message, with the name
/// it points to filled in where the message speaks of one
pub open spec fn message_of(e: ErrV) -> Seq<char> {
    match e.0 {
        ErrorKind::ExpectedIdent => "expected identifier"@,
        ErrorKind::ExpectedEq => "expected `=`"@,
        ErrorKind::ExpectedComma => "expected `,`"@,
        ErrorKind::ExpectedParens => "expected parentheses"@,
        ErrorKind::ExpectedBrackets => "expected square brackets"@,
        ErrorKind::ExpectedIntLiteral => "expected integer literal"@,
        ErrorKind::ExpectedBoolLiteral => "expected boolean literal"@,
        ErrorKind::ExpectedExpression => "expected expression"@,
        ErrorKind::UnexpectedToken => "unexpected token"@,
        ErrorKind::LexError => "cannot parse string into token stream"@,
        ErrorKind::Syntax => e.1,
        ErrorKind::UnsupportedLiteral => "this kind of literal is not supported"@,
        ErrorKind::ExpectedModule => "expected `mod`"@,
        ErrorKind::ExpectedItem => "expected an item"@,
        ErrorKind::ArgumentAppearsMoreThanOnce => "argument appears more than once"@,
        ErrorKind::UnexpectedArgument => "unexpected argument"@,
        ErrorKind::HardwareTaskCapacity => "hardware tasks can't use the `capacity` argument"@,
        ErrorKind::LiteralMustBeUnsuffixed => "this literal must be unsuffixed"@,
        ErrorKind::LiteralOutOfRange => "this literal must be in the range 1...255"@,
        ErrorKind::IdentifierAppearsMoreThanOnce => "identifier appears more than once in list"@,
        ErrorKind::ResourceMustBeIdentifier => "resource must be an identifier, not a path"@,
        ErrorKind::ResourceAppearsMoreThanOnce => "resource appears more than once in list"@,
        ErrorKind::BindsMissing => "`binds = ...` is missing"@,
        ErrorKind::ValueShouldBePath => "unexpected argument value; this should be a path"@,
        ErrorKind::ValueShouldBeBool => "unexpected argument value; this should be a boolean"@,
        ErrorKind::ValueShouldBeArray => "unexpected argument value; expected an array"@,
        ErrorKind::InterruptMustBeIdentifier => "interrupt must be an identifier, not a path"@,
        ErrorKind::InterruptMustBeIdent => "interrupt must be an identifier"@,
        ErrorKind::InterruptListedMoreThanOnce => "this extern interrupt is listed more than once"@,
        ErrorKind::InitAtMostOnce => "`#[init]` function must appear at most once"@,
        ErrorKind::IdleAtMostOnce => "`#[idle]` function must appear at most once"@,
        ErrorKind::TaskDefinedMultipleTimes => "the task is defined multiple times"@,
        ErrorKind::InterruptAlreadyBound => "this interrupt is already bound"@,
        ErrorKind::IdentifierAlreadyUsed => "this identifier has already been used"@,
        ErrorKind::MonotonicTypeAlreadyUsed => "this type is already used by another monotonic"@,
        ErrorKind::MonotonicAtMostOnce => "`#[monotonic(...)]` on a specific type must appear at most once"@,
        ErrorKind::MonotonicAttributes => "Monotonic does not support attributes other than `#[cfg]`"@,
        ErrorKind::ItemVisibility => "this item must have inherited / private visibility"@,
        ErrorKind::FieldVisibility => "this field must have inherited / private visibility"@,
        ErrorKind::ResourceListedMoreThanOnce => "this resource is listed more than once"@,
        ErrorKind::StructNamedFields => "this `struct` must have named fields"@,
        ErrorKind::ExternBlockAbi => "this `extern` block must use the \"Rust\" ABI"@,
        ErrorKind::ExternTaskAttribute => "`extern` task required `#[task(..)]` attribute"@,
        ErrorKind::ItemOutsideApp => "this item must live outside the `#[app]` module"@,
        ErrorKind::InitSignature => "this `#[init]` function must have signature `fn("@ + e.1 + "::Context) -> (Shared resources struct, Local resources struct, "@ + e.1 + "::Monotonics)`"@,
        ErrorKind::IdleSignature => "this `#[idle]` function must have signature `fn("@ + e.1 + "::Context) -> !`"@,
        ErrorKind::TaskSignature => "the task handler must have type signature `fn("@ + e.1 + "::Context, ..)`"@,
        ErrorKind::TaskNamedInitOrIdle => "tasks cannot be named `init` or `idle`"@,
        ErrorKind::ExternInterruptSignature => "extern interrupts must have type signature `fn()`"@,
        ErrorKind::SharedStructAtMostOnce => "`#[shared]` struct must appear at most once"@,
        ErrorKind::LocalStructAtMostOnce => "`#[local]` struct must appear at most once"@,
        ErrorKind::ActorsStructAtMostOnce => "`#[actors]` struct must appear at most once"@,
        ErrorKind::NoSharedStruct => "No `#[shared]` resource struct defined"@,
        ErrorKind::NoLocalStruct => "No `#[local]` resource struct defined"@,
        ErrorKind::NoInit => "No `#[init]` function defined"@,
        ErrorKind::SharedNameMismatch => "This name and the one defined on `#[shared]` are not the same. Should this be `"@ + e.1 + "`?"@,
        ErrorKind::LocalNameMismatch => "This name and the one defined on `#[local]` are not the same. Should this be `"@ + e.1 + "`?"@,
        ErrorKind::ActorsNameMismatch => "This name and the one defined on `#[actors]` are not the same. Should this be `"@ + e.1 + "`?"@,
        ErrorKind::ActorsStructMissing => "a `#[actors]` struct named `"@ + e.1 + "` needs to be defined"@,
        ErrorKind::ActorsNotReturned => "`#[init]` return type needs to include `"@ + e.1 + "` as the 4th tuple element "@,
        ErrorKind::CfgOnActor => "`#[cfg]` is not allowed on actors"@,
        ErrorKind::PriorityAtMostOnce => "only one `#[priority]` attribute is allowed on an actor"@,
        ErrorKind::ActorInitAtMostOnce => "only one `#[init]` attribute is allowed on an actor"@,
        ErrorKind::ActorAttribute => "this attribute is not supported on actor declarations"@,
        ErrorKind::ExpectedType => "expected type"@,
        ErrorKind::NotAU8 => "not a `u8` value"@,
        ErrorKind::ExpectedCapacity => "expected `capacity`, found `"@ + e.1 + "`"@,
        ErrorKind::NotAType => "not a type"@,
        ErrorKind::UnsupportedLocalType => "unsupported type, must be an array, tuple, pointer or type path"@,
        ErrorKind::StaticListedMoreThanOnce => "this `static` is listed more than once"@,
        ErrorKind::OnlyStaticMut => "only `static mut` variables are allowed at the beginning of functions"@,
        ErrorKind::ResourceNotDeclared => "this resource has NOT been declared"@,
        ErrorKind::LateResourceAssignedToInit => "late resources can NOT be assigned to `init`"@,
        ErrorKind::MustNotReturnLateResources => "no late resources exist so this function must NOT return `LateResources`"@,
        ErrorKind::MustReturnLateResources => "late resources exist so `#[init]` must return `init::LateResources`"@,
        ErrorKind::InitRequired => "late resources exist so a `#[init]` function must be defined"@,
        ErrorKind::NoMoreLateResources => "no more late resources to initialize; this function must NOT return `LateResources`"@,
        ErrorKind::NotALateResource => "this is not a late resource"@,
        ErrorKind::InitializedByCore(c) => "this resource is initialized by core "@ + decimal(c as nat),
        ErrorKind::UnclearSplit(a, b) => "unclear how initialization of late resources is split between cores "@ + decimal(a as nat) + " and "@ + decimal(b as nat),
        ErrorKind::NotBeingInitialized => "this resource is not being initialized"@,
        ErrorKind::TaskNotDeclared => "the task has NOT been declared"@,
        ErrorKind::CapacityOverflow => "the capacities of the tasks and subscriptions of one priority add up to more than 255"@,
        ErrorKind::TooManyPriorities => "a core uses more than 255 distinct priorities"@,
    }
}

fn digit_string(d: u8) -> (r: String)
    requires
        d < 10,
    ensures
        r@ == digit(d as nat),
{
    if d == 0 { String::from_str("0") } else if d == 1 { String::from_str("1") }
    else if d == 2 { String::from_str("2") } else if d == 3 { String::from_str("3") }
    else if d == 4 { String::from_str("4") } else if d == 5 { String::from_str("5") }
    else if d == 6 { String::from_str("6") } else if d == 7 { String::from_str("7") }
    else if d == 8 { String::from_str("8") } else { String::from_str("9") }
}

/// The decimal text of `n`
pub fn decimal_string(n: u8) -> (r: String)
    ensures
        r@ == decimal(n as nat),
{
    proof {
        reveal_with_fuel(decimal, 3);
    }
    if n < 10 {
        digit_string(n)
    } else if n < 100 {
        let mut s = digit_string(n / 10);
        s.append(digit_string(n % 10).as_str());
        s
    } else {
        let mut s = digit_string(n / 100);
        s.append(digit_string((n / 10) % 10).as_str());
        s.append(digit_string(n % 10).as_str());
        assert(decimal((n / 10) as nat) == decimal((n / 100) as nat) + digit(((n / 10) % 10) as nat));
        s
    }
}

impl Error {
    /// The message this error is reported with
    pub fn message(&self) -> (r: String)
        ensures
            r@ == message_of(self@),
    {
        match self.kind {
            ErrorKind::ExpectedIdent => String::from_str("expected identifier"),
            ErrorKind::ExpectedEq => String::from_str("expected `=`"),
            ErrorKind::ExpectedComma => String::from_str("expected `,`"),
            ErrorKind::ExpectedParens => String::from_str("expected parentheses"),
            ErrorKind::ExpectedBrackets => String::from_str("expected square brackets"),
            ErrorKind::ExpectedIntLiteral => String::from_str("expected integer literal"),
            ErrorKind::ExpectedBoolLiteral => String::from_str("expected boolean literal"),
            ErrorKind::ExpectedExpression => String::from_str("expected expression"),
            ErrorKind::UnexpectedToken => String::from_str("unexpected token"),
            ErrorKind::LexError => String::from_str("cannot parse string into token stream"),
            ErrorKind::Syntax => self.at.clone(),
            ErrorKind::UnsupportedLiteral => String::from_str("this kind of literal is not supported"),
            ErrorKind::ExpectedModule => String::from_str("expected `mod`"),
            ErrorKind::ExpectedItem => String::from_str("expected an item"),
            ErrorKind::ArgumentAppearsMoreThanOnce => String::from_str("argument appears more than once"),
            ErrorKind::UnexpectedArgument => String::from_str("unexpected argument"),
            ErrorKind::HardwareTaskCapacity => String::from_str("hardware tasks can't use the `capacity` argument"),
            ErrorKind::LiteralMustBeUnsuffixed => String::from_str("this literal must be unsuffixed"),
            ErrorKind::LiteralOutOfRange => String::from_str("this literal must be in the range 1...255"),
            ErrorKind::IdentifierAppearsMoreThanOnce => String::from_str("identifier appears more than once in list"),
            ErrorKind::ResourceMustBeIdentifier => String::from_str("resource must be an identifier, not a path"),
            ErrorKind::ResourceAppearsMoreThanOnce => String::from_str("resource appears more than once in list"),
            ErrorKind::BindsMissing => String::from_str("`binds = ...` is missing"),
            ErrorKind::ValueShouldBePath => String::from_str("unexpected argument value; this should be a path"),
            ErrorKind::ValueShouldBeBool => String::from_str("unexpected argument value; this should be a boolean"),
            ErrorKind::ValueShouldBeArray => String::from_str("unexpected argument value; expected an array"),
            ErrorKind::InterruptMustBeIdentifier => String::from_str("interrupt must be an identifier, not a path"),
            ErrorKind::InterruptMustBeIdent => String::from_str("interrupt must be an identifier"),
            ErrorKind::InterruptListedMoreThanOnce => String::from_str("this extern interrupt is listed more than once"),
            ErrorKind::InitAtMostOnce => String::from_str("`#[init]` function must appear at most once"),
            ErrorKind::IdleAtMostOnce => String::from_str("`#[idle]` function must appear at most once"),
            ErrorKind::TaskDefinedMultipleTimes => String::from_str("the task is defined multiple times"),
            ErrorKind::InterruptAlreadyBound => String::from_str("this interrupt is already bound"),
            ErrorKind::IdentifierAlreadyUsed => String::from_str("this identifier has already been used"),
            ErrorKind::MonotonicTypeAlreadyUsed => String::from_str("this type is already used by another monotonic"),
            ErrorKind::MonotonicAtMostOnce => String::from_str("`#[monotonic(...)]` on a specific type must appear at most once"),
            ErrorKind::MonotonicAttributes => String::from_str("Monotonic does not support attributes other than `#[cfg]`"),
            ErrorKind::ItemVisibility => String::from_str("this item must have inherited / private visibility"),
            ErrorKind::FieldVisibility => String::from_str("this field must have inherited / private visibility"),
            ErrorKind::ResourceListedMoreThanOnce => String::from_str("this resource is listed more than once"),
            ErrorKind::StructNamedFields => String::from_str("this `struct` must have named fields"),
            ErrorKind::ExternBlockAbi => String::from_str("this `extern` block must use the \"Rust\" ABI"),
            ErrorKind::ExternTaskAttribute => String::from_str("`extern` task required `#[task(..)]` attribute"),
            ErrorKind::ItemOutsideApp => String::from_str("this item must live outside the `#[app]` module"),
            ErrorKind::InitSignature => {
                let mut s = String::from_str("this `#[init]` function must have signature `fn(");
                s.append(self.at.as_str());
                s.append("::Context) -> (Shared resources struct, Local resources struct, ");
                s.append(self.at.as_str());
                s.append("::Monotonics)`");
                s
            },
            ErrorKind::IdleSignature => {
                let mut s = String::from_str("this `#[idle]` function must have signature `fn(");
                s.append(self.at.as_str());
                s.append("::Context) -> !`");
                s
            },
            ErrorKind::TaskSignature => {
                let mut s = String::from_str("the task handler must have type signature `fn(");
                s.append(self.at.as_str());
                s.append("::Context, ..)`");
                s
            },
            ErrorKind::TaskNamedInitOrIdle => String::from_str("tasks cannot be named `init` or `idle`"),
            ErrorKind::ExternInterruptSignature => String::from_str("extern interrupts must have type signature `fn()`"),
            ErrorKind::SharedStructAtMostOnce => String::from_str(
                "`#[shared]` struct must appear at most once",
            ),
            ErrorKind::LocalStructAtMostOnce => String::from_str(
                "`#[local]` struct must appear at most once",
            ),
            ErrorKind::ActorsStructAtMostOnce => String::from_str("`#[actors]` struct must appear at most once"),
            ErrorKind::NoSharedStruct => String::from_str("No `#[shared]` resource struct defined"),
            ErrorKind::NoLocalStruct => String::from_str("No `#[local]` resource struct defined"),
            ErrorKind::NoInit => String::from_str("No `#[init]` function defined"),
            ErrorKind::SharedNameMismatch => {
                let mut s = String::from_str("This name and the one defined on `#[shared]` are not the same. Should this be `");
                s.append(self.at.as_str());
                s.append("`?");
                s
            },
            ErrorKind::LocalNameMismatch => {
                let mut s = String::from_str("This name and the one defined on `#[local]` are not the same. Should this be `");
                s.append(self.at.as_str());
                s.append("`?");
                s
            },
            ErrorKind::ActorsNameMismatch => {
                let mut s = String::from_str("This name and the one defined on `#[actors]` are not the same. Should this be `");
                s.append(self.at.as_str());
                s.append("`?");
                s
            },
            ErrorKind::ActorsStructMissing => {
                let mut s = String::from_str("a `#[actors]` struct named `");
                s.append(self.at.as_str());
                s.append("` needs to be defined");
                s
            },
            ErrorKind::ActorsNotReturned => {
                let mut s = String::from_str("`#[init]` return type needs to include `");
                s.append(self.at.as_str());
                s.append("` as the 4th tuple element ");
                s
            },
            ErrorKind::CfgOnActor => String::from_str("`#[cfg]` is not allowed on actors"),
            ErrorKind::PriorityAtMostOnce => String::from_str("only one `#[priority]` attribute is allowed on an actor"),
            ErrorKind::ActorInitAtMostOnce => String::from_str("only one `#[init]` attribute is allowed on an actor"),
            ErrorKind::ActorAttribute => String::from_str("this attribute is not supported on actor declarations"),
            ErrorKind::ExpectedType => String::from_str("expected type"),
            ErrorKind::NotAU8 => String::from_str("not a `u8` value"),
            ErrorKind::ExpectedCapacity => {
                let mut s = String::from_str("expected `capacity`, found `");
                s.append(self.at.as_str());
                s.append("`");
                s
            },
            ErrorKind::NotAType => String::from_str("not a type"),
            ErrorKind::UnsupportedLocalType => String::from_str(
                "unsupported type, must be an array, tuple, pointer or type path",
            ),
            ErrorKind::StaticListedMoreThanOnce => String::from_str("this `static` is listed more than once"),
            ErrorKind::OnlyStaticMut => String::from_str("only `static mut` variables are allowed at the beginning of functions"),
            ErrorKind::ResourceNotDeclared => String::from_str("this resource has NOT been declared"),
            ErrorKind::LateResourceAssignedToInit => String::from_str("late resources can NOT be assigned to `init`"),
            ErrorKind::MustNotReturnLateResources => String::from_str("no late resources exist so this function must NOT return `LateResources`"),
            ErrorKind::MustReturnLateResources => String::from_str("late resources exist so `#[init]` must return `init::LateResources`"),
            ErrorKind::InitRequired => String::from_str("late resources exist so a `#[init]` function must be defined"),
            ErrorKind::NoMoreLateResources => String::from_str("no more late resources to initialize; this function must NOT return `LateResources`"),
            ErrorKind::NotALateResource => String::from_str("this is not a late resource"),
            ErrorKind::InitializedByCore(c) => {
                let mut s = String::from_str("this resource is initialized by core ");
                s.append(decimal_string(c).as_str());
                s
            },
            ErrorKind::UnclearSplit(a, b) => {
                let mut s = String::from_str("unclear how initialization of late resources is split between cores ");
                s.append(decimal_string(a).as_str());
                s.append(" and ");
                s.append(decimal_string(b).as_str());
                s
            },
            ErrorKind::NotBeingInitialized => String::from_str("this resource is not being initialized"),
            ErrorKind::TaskNotDeclared => String::from_str("the task has NOT been declared"),
            ErrorKind::CapacityOverflow => String::from_str("the capacities of the tasks and subscriptions of one priority add up to more than 255"),
            ErrorKind::TooManyPriorities => String::from_str("a core uses more than 255 distinct priorities"),
        }
    }
}

} // verus!
