# rtic-syntax

The parser, checker, priority optimizer and resource analysis of the
Real-Time Interrupt-driven Concurrency (RTIC) `#[app]` language, verified
with Verus.

- `src/` is the verified library. `parse2` reads the `#[app]` attribute's
  arguments and the module it is placed on, checks the application, compresses
  its priorities where the settings ask for it, and analyzes it; its contract
  states the result for every input in terms of the spec functions of
  `parse`, `check`, `optimize` and `analyze`.
  - `tokens`: token trees and their values; `stream`: the bridge to
    `proc_macro2` and `syn`; `names`: the `indexmap` maps of the analysis.
    These two hold the trusted code.
  - `parse` (`cursor`, `args`, `item`, `func`, `actor`, `app`): the attribute
    arguments, the items of the module and the application built from them.
    Resources are declared in a `#[shared]` and a `#[local]` struct, both
    required, and reached through `resources` (or `shared`) and `local`
    arguments; actors are the fields of an optional `#[actors]` struct. The
    `#[init]` function, also required, returns the `#[shared]`, `#[local]`
    (and `#[actors]`) structs by their names.
  - `check`: the checks on the whole application.
  - `optimize`: priority compression.
  - `accessors`, `analyze`: resource accesses, ownership, `Send`/`Sync`
    types, message channels (of software tasks and of actors' subscriptions)
    and late resources.
  - `error`: error kinds and their messages.
- `app/` converts the compiler's `proc_macro` token streams and turns errors
  into `syn` errors at the offending token.
- `tests/` runs the library on concrete applications.
