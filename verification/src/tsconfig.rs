//! The vocabulary of TypeScript build configurations that the engine's
//! companion tooling reads and writes: each name has one canonical text
//! and parses back from any letter case.

use vstd::prelude::*;

use crate::utils::push_char;

verus! {

/// Whether two characters agree up to ASCII letter case.
pub open spec fn char_eq_nocase(x: char, y: char) -> bool {
    ||| x == y
    ||| ('A' <= y && y <= 'Z' && x as u32 == y as u32 + 32)
    ||| ('A' <= x && x <= 'Z' && y as u32 == x as u32 + 32)
}

/// Whether two texts agree up to ASCII letter case.
pub open spec fn eq_nocase(a: Seq<char>, b: Seq<char>) -> bool {
    a.len() == b.len() && forall|i: int| 0 <= i < a.len() ==> char_eq_nocase(#[trigger] a[i], b[i])
}

fn exec_char_eq_nocase(x: char, y: char) -> (r: bool)
    ensures
        r == char_eq_nocase(x, y),
{
    if x == y {
        true
    } else {
        let xu = x as u32;
        let yu = y as u32;
        ('A' <= y && y <= 'Z' && xu == yu + 32) || ('A' <= x && x <= 'Z' && xu + 32 == yu)
    }
}

/// Compare two texts ignoring ASCII letter case.
#[verifier::loop_isolation(false)]
fn eq_nocase_exec(a: &str, b: &str) -> (r: bool)
    ensures
        r == eq_nocase(a@, b@),
{
    let na = a.unicode_len();
    let nb = b.unicode_len();
    if na != nb {
        return false;
    }
    let mut i: usize = 0;
    while i < na
        invariant
            0 <= i <= na,
            forall|j: int| 0 <= j < i ==> char_eq_nocase(#[trigger] a@[j], b@[j]),
        decreases na - i,
    {
        if !exec_char_eq_nocase(a.get_char(i), b.get_char(i)) {
            return false;
        }
        i = i + 1;
    }
    true
}


/// The polling strategy used when native file watching is unavailable.
#[derive(PartialEq, Eq, Structural, Clone, Copy, Debug)]
pub enum FallbackPolling {
    FixedPollingInterval,
    PriorityPollingInterval,
    DynamicPriorityPolling,
    FixedInterval,
    PriorityInterval,
    DynamicPriority,
    FixedChunkSize,
}

impl FallbackPolling {
    /// The canonical text of this name.
    pub open spec fn spec_text(&self) -> Seq<char> {
        match self {
            FallbackPolling::FixedPollingInterval => "fixedPollingInterval"@,
            FallbackPolling::PriorityPollingInterval => "priorityPollingInterval"@,
            FallbackPolling::DynamicPriorityPolling => "dynamicPriorityPolling"@,
            FallbackPolling::FixedInterval => "fixedInterval"@,
            FallbackPolling::PriorityInterval => "priorityInterval"@,
            FallbackPolling::DynamicPriority => "dynamicPriority"@,
            FallbackPolling::FixedChunkSize => "fixedChunkSize"@,
        }
    }

    /// Render the canonical text.
    pub fn get_string(&self) -> (r: String)
        ensures
            r@ == self.spec_text(),
    {
        match self {
            FallbackPolling::FixedPollingInterval => String::from_str("fixedPollingInterval"),
            FallbackPolling::PriorityPollingInterval => String::from_str("priorityPollingInterval"),
            FallbackPolling::DynamicPriorityPolling => String::from_str("dynamicPriorityPolling"),
            FallbackPolling::FixedInterval => String::from_str("fixedInterval"),
            FallbackPolling::PriorityInterval => String::from_str("priorityInterval"),
            FallbackPolling::DynamicPriority => String::from_str("dynamicPriority"),
            FallbackPolling::FixedChunkSize => String::from_str("fixedChunkSize"),
        }
    }

    /// Parse a name, ignoring ASCII letter case.
    pub fn from_text(s: &str) -> (r: Option<Self>)
        ensures
            match r {
                Some(v) => eq_nocase(s@, v.spec_text()),
                None => !eq_nocase(s@, "fixedPollingInterval"@) &&
            !eq_nocase(s@, "priorityPollingInterval"@) &&
            !eq_nocase(s@, "dynamicPriorityPolling"@) &&
            !eq_nocase(s@, "fixedInterval"@) &&
            !eq_nocase(s@, "priorityInterval"@) &&
            !eq_nocase(s@, "dynamicPriority"@) &&
            !eq_nocase(s@, "fixedChunkSize"@),
            },
    {
        if eq_nocase_exec(s, "fixedPollingInterval") {
            return Some(FallbackPolling::FixedPollingInterval);
        }
        if eq_nocase_exec(s, "priorityPollingInterval") {
            return Some(FallbackPolling::PriorityPollingInterval);
        }
        if eq_nocase_exec(s, "dynamicPriorityPolling") {
            return Some(FallbackPolling::DynamicPriorityPolling);
        }
        if eq_nocase_exec(s, "fixedInterval") {
            return Some(FallbackPolling::FixedInterval);
        }
        if eq_nocase_exec(s, "priorityInterval") {
            return Some(FallbackPolling::PriorityInterval);
        }
        if eq_nocase_exec(s, "dynamicPriority") {
            return Some(FallbackPolling::DynamicPriority);
        }
        if eq_nocase_exec(s, "fixedChunkSize") {
            return Some(FallbackPolling::FixedChunkSize);
        }
        None
    }
}


/// How imports only used for types are emitted.
#[derive(PartialEq, Eq, Structural, Clone, Copy, Debug)]
pub enum ImportsNotUsedAsValues {
    Remove,
    Preserve,
    Error,
}

impl ImportsNotUsedAsValues {
    /// The canonical text of this name.
    pub open spec fn spec_text(&self) -> Seq<char> {
        match self {
            ImportsNotUsedAsValues::Remove => "remove"@,
            ImportsNotUsedAsValues::Preserve => "preserve"@,
            ImportsNotUsedAsValues::Error => "error"@,
        }
    }

    /// Render the canonical text.
    pub fn get_string(&self) -> (r: String)
        ensures
            r@ == self.spec_text(),
    {
        match self {
            ImportsNotUsedAsValues::Remove => String::from_str("remove"),
            ImportsNotUsedAsValues::Preserve => String::from_str("preserve"),
            ImportsNotUsedAsValues::Error => String::from_str("error"),
        }
    }

    /// Parse a name, ignoring ASCII letter case.
    pub fn from_text(s: &str) -> (r: Option<Self>)
        ensures
            match r {
                Some(v) => eq_nocase(s@, v.spec_text()),
                None => !eq_nocase(s@, "remove"@) &&
            !eq_nocase(s@, "preserve"@) &&
            !eq_nocase(s@, "error"@),
            },
    {
        if eq_nocase_exec(s, "remove") {
            return Some(ImportsNotUsedAsValues::Remove);
        }
        if eq_nocase_exec(s, "preserve") {
            return Some(ImportsNotUsedAsValues::Preserve);
        }
        if eq_nocase_exec(s, "error") {
            return Some(ImportsNotUsedAsValues::Error);
        }
        None
    }
}


/// What JSX code is generated.
#[derive(PartialEq, Eq, Structural, Clone, Copy, Debug)]
pub enum Jsx {
    Preserve,
    React,
    ReactJsx,
    ReactJsxdev,
    ReactNative,
}

impl Jsx {
    /// The canonical text of this name.
    pub open spec fn spec_text(&self) -> Seq<char> {
        match self {
            Jsx::Preserve => "preserve"@,
            Jsx::React => "react"@,
            Jsx::ReactJsx => "react-jsx"@,
            Jsx::ReactJsxdev => "react-jsxdev"@,
            Jsx::ReactNative => "react-native"@,
        }
    }

    /// Render the canonical text.
    pub fn get_string(&self) -> (r: String)
        ensures
            r@ == self.spec_text(),
    {
        match self {
            Jsx::Preserve => String::from_str("preserve"),
            Jsx::React => String::from_str("react"),
            Jsx::ReactJsx => String::from_str("react-jsx"),
            Jsx::ReactJsxdev => String::from_str("react-jsxdev"),
            Jsx::ReactNative => String::from_str("react-native"),
        }
    }

    /// Parse a name, ignoring ASCII letter case.
    pub fn from_text(s: &str) -> (r: Option<Self>)
        ensures
            match r {
                Some(v) => eq_nocase(s@, v.spec_text()),
                None => !eq_nocase(s@, "preserve"@) &&
            !eq_nocase(s@, "react"@) &&
            !eq_nocase(s@, "react-jsx"@) &&
            !eq_nocase(s@, "react-jsxdev"@) &&
            !eq_nocase(s@, "react-native"@),
            },
    {
        if eq_nocase_exec(s, "preserve") {
            return Some(Jsx::Preserve);
        }
        if eq_nocase_exec(s, "react") {
            return Some(Jsx::React);
        }
        if eq_nocase_exec(s, "react-jsx") {
            return Some(Jsx::ReactJsx);
        }
        if eq_nocase_exec(s, "react-jsxdev") {
            return Some(Jsx::ReactJsxdev);
        }
        if eq_nocase_exec(s, "react-native") {
            return Some(Jsx::ReactNative);
        }
        None
    }
}


/// A bundled library of ambient declarations.
#[derive(PartialEq, Eq, Structural, Clone, Copy, Debug)]
pub enum Lib {
    Es5,
    Es6,
    Es2015,
    Es2015Collection,
    Es2015Core,
    Es2015Generator,
    Es2015Iterable,
    Es2015Promise,
    Es2015Proxy,
    Es2015Reflect,
    Es2015SymbolWellKnown,
    Es2015Symbol,
    Es2016,
    Es2016ArrayInclude,
    Es2017,
    Es2017Intl,
    Es2017Object,
    Es2017SharedMemory,
    Es2017String,
    Es2017TypedArrays,
    Es2018,
    Es2018AsyncGenerator,
    Es2018AsyncIterable,
    Es2018Intl,
    Es2018Promise,
    Es2018Regexp,
    Es2019,
    Es2019Array,
    Es2019Object,
    Es2019String,
    Es2019Symbol,
    Es2020,
    Es2020BigInt,
    Es2020Promise,
    Es2020String,
    Es2020SymbolWellKnown,
    EsNext,
    EsNextArray,
    EsNextAsyncIterable,
    EsNextBigInt,
    EsNextIntl,
    EsNextPromise,
    EsNextString,
    EsNextSymbol,
    Dom,
    DomIterable,
    ScriptHost,
    WebWorker,
    WebWorkerImportScripts,
    WebWorkerIterable,
    Es7,
    Es2021,
    Es2020SharedMemory,
    Es2020Intl,
    Es2021Promise,
    Es2021String,
    Es2021WeakRef,
    EsNextWeakRef,
    Es2021Intl,
}

impl Lib {
    /// The canonical text of this name.
    pub open spec fn spec_text(&self) -> Seq<char> {
        match self {
            Lib::Es5 => "ES5"@,
            Lib::Es6 => "ES6"@,
            Lib::Es2015 => "ES2015"@,
            Lib::Es2015Collection => "ES2015.Collection"@,
            Lib::Es2015Core => "ES2015.Core"@,
            Lib::Es2015Generator => "ES2015.Generator"@,
            Lib::Es2015Iterable => "ES2015.Iterable"@,
            Lib::Es2015Promise => "ES2015.Promise"@,
            Lib::Es2015Proxy => "ES2015.Proxy"@,
            Lib::Es2015Reflect => "ES2015.Reflect"@,
            Lib::Es2015SymbolWellKnown => "ES2015.Symbol.WellKnown"@,
            Lib::Es2015Symbol => "ES2015.Symbol"@,
            Lib::Es2016 => "ES2016"@,
            Lib::Es2016ArrayInclude => "ES2016.Array.Include"@,
            Lib::Es2017 => "ES2017"@,
            Lib::Es2017Intl => "ES2017.Intl"@,
            Lib::Es2017Object => "ES2017.Object"@,
            Lib::Es2017SharedMemory => "ES2017.SharedMemory"@,
            Lib::Es2017String => "ES2017.String"@,
            Lib::Es2017TypedArrays => "ES2017.TypedArrays"@,
            Lib::Es2018 => "ES2018"@,
            Lib::Es2018AsyncGenerator => "ES2018.AsyncGenerator"@,
            Lib::Es2018AsyncIterable => "ES2018.AsyncIterable"@,
            Lib::Es2018Intl => "ES2018.Intl"@,
            Lib::Es2018Promise => "ES2018.Promise"@,
            Lib::Es2018Regexp => "ES2018.Regexp"@,
            Lib::Es2019 => "ES2019"@,
            Lib::Es2019Array => "ES2019.Array"@,
            Lib::Es2019Object => "ES2019.Object"@,
            Lib::Es2019String => "ES2019.String"@,
            Lib::Es2019Symbol => "ES2019.Symbol"@,
            Lib::Es2020 => "ES2020"@,
            Lib::Es2020BigInt => "ES2020.BigInt"@,
            Lib::Es2020Promise => "ES2020.Promise"@,
            Lib::Es2020String => "ES2020.String"@,
            Lib::Es2020SymbolWellKnown => "ES2020.Symbol.WellKnown"@,
            Lib::EsNext => "ESNext"@,
            Lib::EsNextArray => "ESNext.Array"@,
            Lib::EsNextAsyncIterable => "ESNext.AsyncIterable"@,
            Lib::EsNextBigInt => "ESNext.BigInt"@,
            Lib::EsNextIntl => "ESNext.Intl"@,
            Lib::EsNextPromise => "ESNext.Promise"@,
            Lib::EsNextString => "ESNext.String"@,
            Lib::EsNextSymbol => "ESNext.Symbol"@,
            Lib::Dom => "DOM"@,
            Lib::DomIterable => "DOM.Iterable"@,
            Lib::ScriptHost => "ScriptHost"@,
            Lib::WebWorker => "WebWorker"@,
            Lib::WebWorkerImportScripts => "WebWorker.ImportScripts"@,
            Lib::WebWorkerIterable => "WebWorker.Iterable"@,
            Lib::Es7 => "ES7"@,
            Lib::Es2021 => "ES2021"@,
            Lib::Es2020SharedMemory => "ES2020.SharedMemory"@,
            Lib::Es2020Intl => "ES2020.Intl"@,
            Lib::Es2021Promise => "ES2021.Promise"@,
            Lib::Es2021String => "ES2021.String"@,
            Lib::Es2021WeakRef => "ES2021.WeakRef"@,
            Lib::EsNextWeakRef => "ESNext.WeakRef"@,
            Lib::Es2021Intl => "ES2021.Intl"@,
        }
    }

    /// Render the canonical text.
    pub fn get_string(&self) -> (r: String)
        ensures
            r@ == self.spec_text(),
    {
        match self {
            Lib::Es5 => String::from_str("ES5"),
            Lib::Es6 => String::from_str("ES6"),
            Lib::Es2015 => String::from_str("ES2015"),
            Lib::Es2015Collection => String::from_str("ES2015.Collection"),
            Lib::Es2015Core => String::from_str("ES2015.Core"),
            Lib::Es2015Generator => String::from_str("ES2015.Generator"),
            Lib::Es2015Iterable => String::from_str("ES2015.Iterable"),
            Lib::Es2015Promise => String::from_str("ES2015.Promise"),
            Lib::Es2015Proxy => String::from_str("ES2015.Proxy"),
            Lib::Es2015Reflect => String::from_str("ES2015.Reflect"),
            Lib::Es2015SymbolWellKnown => String::from_str("ES2015.Symbol.WellKnown"),
            Lib::Es2015Symbol => String::from_str("ES2015.Symbol"),
            Lib::Es2016 => String::from_str("ES2016"),
            Lib::Es2016ArrayInclude => String::from_str("ES2016.Array.Include"),
            Lib::Es2017 => String::from_str("ES2017"),
            Lib::Es2017Intl => String::from_str("ES2017.Intl"),
            Lib::Es2017Object => String::from_str("ES2017.Object"),
            Lib::Es2017SharedMemory => String::from_str("ES2017.SharedMemory"),
            Lib::Es2017String => String::from_str("ES2017.String"),
            Lib::Es2017TypedArrays => String::from_str("ES2017.TypedArrays"),
            Lib::Es2018 => String::from_str("ES2018"),
            Lib::Es2018AsyncGenerator => String::from_str("ES2018.AsyncGenerator"),
            Lib::Es2018AsyncIterable => String::from_str("ES2018.AsyncIterable"),
            Lib::Es2018Intl => String::from_str("ES2018.Intl"),
            Lib::Es2018Promise => String::from_str("ES2018.Promise"),
            Lib::Es2018Regexp => String::from_str("ES2018.Regexp"),
            Lib::Es2019 => String::from_str("ES2019"),
            Lib::Es2019Array => String::from_str("ES2019.Array"),
            Lib::Es2019Object => String::from_str("ES2019.Object"),
            Lib::Es2019String => String::from_str("ES2019.String"),
            Lib::Es2019Symbol => String::from_str("ES2019.Symbol"),
            Lib::Es2020 => String::from_str("ES2020"),
            Lib::Es2020BigInt => String::from_str("ES2020.BigInt"),
            Lib::Es2020Promise => String::from_str("ES2020.Promise"),
            Lib::Es2020String => String::from_str("ES2020.String"),
            Lib::Es2020SymbolWellKnown => String::from_str("ES2020.Symbol.WellKnown"),
            Lib::EsNext => String::from_str("ESNext"),
            Lib::EsNextArray => String::from_str("ESNext.Array"),
            Lib::EsNextAsyncIterable => String::from_str("ESNext.AsyncIterable"),
            Lib::EsNextBigInt => String::from_str("ESNext.BigInt"),
            Lib::EsNextIntl => String::from_str("ESNext.Intl"),
            Lib::EsNextPromise => String::from_str("ESNext.Promise"),
            Lib::EsNextString => String::from_str("ESNext.String"),
            Lib::EsNextSymbol => String::from_str("ESNext.Symbol"),
            Lib::Dom => String::from_str("DOM"),
            Lib::DomIterable => String::from_str("DOM.Iterable"),
            Lib::ScriptHost => String::from_str("ScriptHost"),
            Lib::WebWorker => String::from_str("WebWorker"),
            Lib::WebWorkerImportScripts => String::from_str("WebWorker.ImportScripts"),
            Lib::WebWorkerIterable => String::from_str("WebWorker.Iterable"),
            Lib::Es7 => String::from_str("ES7"),
            Lib::Es2021 => String::from_str("ES2021"),
            Lib::Es2020SharedMemory => String::from_str("ES2020.SharedMemory"),
            Lib::Es2020Intl => String::from_str("ES2020.Intl"),
            Lib::Es2021Promise => String::from_str("ES2021.Promise"),
            Lib::Es2021String => String::from_str("ES2021.String"),
            Lib::Es2021WeakRef => String::from_str("ES2021.WeakRef"),
            Lib::EsNextWeakRef => String::from_str("ESNext.WeakRef"),
            Lib::Es2021Intl => String::from_str("ES2021.Intl"),
        }
    }

    /// Parse a name, ignoring ASCII letter case.
    pub fn from_text(s: &str) -> (r: Option<Self>)
        ensures
            match r {
                Some(v) => eq_nocase(s@, v.spec_text()),
                None => !eq_nocase(s@, "ES5"@) &&
            !eq_nocase(s@, "ES6"@) &&
            !eq_nocase(s@, "ES2015"@) &&
            !eq_nocase(s@, "ES2015.Collection"@) &&
            !eq_nocase(s@, "ES2015.Core"@) &&
            !eq_nocase(s@, "ES2015.Generator"@) &&
            !eq_nocase(s@, "ES2015.Iterable"@) &&
            !eq_nocase(s@, "ES2015.Promise"@) &&
            !eq_nocase(s@, "ES2015.Proxy"@) &&
            !eq_nocase(s@, "ES2015.Reflect"@) &&
            !eq_nocase(s@, "ES2015.Symbol.WellKnown"@) &&
            !eq_nocase(s@, "ES2015.Symbol"@) &&
            !eq_nocase(s@, "ES2016"@) &&
            !eq_nocase(s@, "ES2016.Array.Include"@) &&
            !eq_nocase(s@, "ES2017"@) &&
            !eq_nocase(s@, "ES2017.Intl"@) &&
            !eq_nocase(s@, "ES2017.Object"@) &&
            !eq_nocase(s@, "ES2017.SharedMemory"@) &&
            !eq_nocase(s@, "ES2017.String"@) &&
            !eq_nocase(s@, "ES2017.TypedArrays"@) &&
            !eq_nocase(s@, "ES2018"@) &&
            !eq_nocase(s@, "ES2018.AsyncGenerator"@) &&
            !eq_nocase(s@, "ES2018.AsyncIterable"@) &&
            !eq_nocase(s@, "ES2018.Intl"@) &&
            !eq_nocase(s@, "ES2018.Promise"@) &&
            !eq_nocase(s@, "ES2018.Regexp"@) &&
            !eq_nocase(s@, "ES2019"@) &&
            !eq_nocase(s@, "ES2019.Array"@) &&
            !eq_nocase(s@, "ES2019.Object"@) &&
            !eq_nocase(s@, "ES2019.String"@) &&
            !eq_nocase(s@, "ES2019.Symbol"@) &&
            !eq_nocase(s@, "ES2020"@) &&
            !eq_nocase(s@, "ES2020.BigInt"@) &&
            !eq_nocase(s@, "ES2020.Promise"@) &&
            !eq_nocase(s@, "ES2020.String"@) &&
            !eq_nocase(s@, "ES2020.Symbol.WellKnown"@) &&
            !eq_nocase(s@, "ESNext"@) &&
            !eq_nocase(s@, "ESNext.Array"@) &&
            !eq_nocase(s@, "ESNext.AsyncIterable"@) &&
            !eq_nocase(s@, "ESNext.BigInt"@) &&
            !eq_nocase(s@, "ESNext.Intl"@) &&
            !eq_nocase(s@, "ESNext.Promise"@) &&
            !eq_nocase(s@, "ESNext.String"@) &&
            !eq_nocase(s@, "ESNext.Symbol"@) &&
            !eq_nocase(s@, "DOM"@) &&
            !eq_nocase(s@, "DOM.Iterable"@) &&
            !eq_nocase(s@, "ScriptHost"@) &&
            !eq_nocase(s@, "WebWorker"@) &&
            !eq_nocase(s@, "WebWorker.ImportScripts"@) &&
            !eq_nocase(s@, "WebWorker.Iterable"@) &&
            !eq_nocase(s@, "ES7"@) &&
            !eq_nocase(s@, "ES2021"@) &&
            !eq_nocase(s@, "ES2020.SharedMemory"@) &&
            !eq_nocase(s@, "ES2020.Intl"@) &&
            !eq_nocase(s@, "ES2021.Promise"@) &&
            !eq_nocase(s@, "ES2021.String"@) &&
            !eq_nocase(s@, "ES2021.WeakRef"@) &&
            !eq_nocase(s@, "ESNext.WeakRef"@) &&
            !eq_nocase(s@, "ES2021.Intl"@),
            },
    {
        if eq_nocase_exec(s, "ES5") {
            return Some(Lib::Es5);
        }
        if eq_nocase_exec(s, "ES6") {
            return Some(Lib::Es6);
        }
        if eq_nocase_exec(s, "ES2015") {
            return Some(Lib::Es2015);
        }
        if eq_nocase_exec(s, "ES2015.Collection") {
            return Some(Lib::Es2015Collection);
        }
        if eq_nocase_exec(s, "ES2015.Core") {
            return Some(Lib::Es2015Core);
        }
        if eq_nocase_exec(s, "ES2015.Generator") {
            return Some(Lib::Es2015Generator);
        }
        if eq_nocase_exec(s, "ES2015.Iterable") {
            return Some(Lib::Es2015Iterable);
        }
        if eq_nocase_exec(s, "ES2015.Promise") {
            return Some(Lib::Es2015Promise);
        }
        if eq_nocase_exec(s, "ES2015.Proxy") {
            return Some(Lib::Es2015Proxy);
        }
        if eq_nocase_exec(s, "ES2015.Reflect") {
            return Some(Lib::Es2015Reflect);
        }
        if eq_nocase_exec(s, "ES2015.Symbol.WellKnown") {
            return Some(Lib::Es2015SymbolWellKnown);
        }
        if eq_nocase_exec(s, "ES2015.Symbol") {
            return Some(Lib::Es2015Symbol);
        }
        if eq_nocase_exec(s, "ES2016") {
            return Some(Lib::Es2016);
        }
        if eq_nocase_exec(s, "ES2016.Array.Include") {
            return Some(Lib::Es2016ArrayInclude);
        }
        if eq_nocase_exec(s, "ES2017") {
            return Some(Lib::Es2017);
        }
        if eq_nocase_exec(s, "ES2017.Intl") {
            return Some(Lib::Es2017Intl);
        }
        if eq_nocase_exec(s, "ES2017.Object") {
            return Some(Lib::Es2017Object);
        }
        if eq_nocase_exec(s, "ES2017.SharedMemory") {
            return Some(Lib::Es2017SharedMemory);
        }
        if eq_nocase_exec(s, "ES2017.String") {
            return Some(Lib::Es2017String);
        }
        if eq_nocase_exec(s, "ES2017.TypedArrays") {
            return Some(Lib::Es2017TypedArrays);
        }
        if eq_nocase_exec(s, "ES2018") {
            return Some(Lib::Es2018);
        }
        if eq_nocase_exec(s, "ES2018.AsyncGenerator") {
            return Some(Lib::Es2018AsyncGenerator);
        }
        if eq_nocase_exec(s, "ES2018.AsyncIterable") {
            return Some(Lib::Es2018AsyncIterable);
        }
        if eq_nocase_exec(s, "ES2018.Intl") {
            return Some(Lib::Es2018Intl);
        }
        if eq_nocase_exec(s, "ES2018.Promise") {
            return Some(Lib::Es2018Promise);
        }
        if eq_nocase_exec(s, "ES2018.Regexp") {
            return Some(Lib::Es2018Regexp);
        }
        if eq_nocase_exec(s, "ES2019") {
            return Some(Lib::Es2019);
        }
        if eq_nocase_exec(s, "ES2019.Array") {
            return Some(Lib::Es2019Array);
        }
        if eq_nocase_exec(s, "ES2019.Object") {
            return Some(Lib::Es2019Object);
        }
        if eq_nocase_exec(s, "ES2019.String") {
            return Some(Lib::Es2019String);
        }
        if eq_nocase_exec(s, "ES2019.Symbol") {
            return Some(Lib::Es2019Symbol);
        }
        if eq_nocase_exec(s, "ES2020") {
            return Some(Lib::Es2020);
        }
        if eq_nocase_exec(s, "ES2020.BigInt") {
            return Some(Lib::Es2020BigInt);
        }
        if eq_nocase_exec(s, "ES2020.Promise") {
            return Some(Lib::Es2020Promise);
        }
        if eq_nocase_exec(s, "ES2020.String") {
            return Some(Lib::Es2020String);
        }
        if eq_nocase_exec(s, "ES2020.Symbol.WellKnown") {
            return Some(Lib::Es2020SymbolWellKnown);
        }
        if eq_nocase_exec(s, "ESNext") {
            return Some(Lib::EsNext);
        }
        if eq_nocase_exec(s, "ESNext.Array") {
            return Some(Lib::EsNextArray);
        }
        if eq_nocase_exec(s, "ESNext.AsyncIterable") {
            return Some(Lib::EsNextAsyncIterable);
        }
        if eq_nocase_exec(s, "ESNext.BigInt") {
            return Some(Lib::EsNextBigInt);
        }
        if eq_nocase_exec(s, "ESNext.Intl") {
            return Some(Lib::EsNextIntl);
        }
        if eq_nocase_exec(s, "ESNext.Promise") {
            return Some(Lib::EsNextPromise);
        }
        if eq_nocase_exec(s, "ESNext.String") {
            return Some(Lib::EsNextString);
        }
        if eq_nocase_exec(s, "ESNext.Symbol") {
            return Some(Lib::EsNextSymbol);
        }
        if eq_nocase_exec(s, "DOM") {
            return Some(Lib::Dom);
        }
        if eq_nocase_exec(s, "DOM.Iterable") {
            return Some(Lib::DomIterable);
        }
        if eq_nocase_exec(s, "ScriptHost") {
            return Some(Lib::ScriptHost);
        }
        if eq_nocase_exec(s, "WebWorker") {
            return Some(Lib::WebWorker);
        }
        if eq_nocase_exec(s, "WebWorker.ImportScripts") {
            return Some(Lib::WebWorkerImportScripts);
        }
        if eq_nocase_exec(s, "WebWorker.Iterable") {
            return Some(Lib::WebWorkerIterable);
        }
        if eq_nocase_exec(s, "ES7") {
            return Some(Lib::Es7);
        }
        if eq_nocase_exec(s, "ES2021") {
            return Some(Lib::Es2021);
        }
        if eq_nocase_exec(s, "ES2020.SharedMemory") {
            return Some(Lib::Es2020SharedMemory);
        }
        if eq_nocase_exec(s, "ES2020.Intl") {
            return Some(Lib::Es2020Intl);
        }
        if eq_nocase_exec(s, "ES2021.Promise") {
            return Some(Lib::Es2021Promise);
        }
        if eq_nocase_exec(s, "ES2021.String") {
            return Some(Lib::Es2021String);
        }
        if eq_nocase_exec(s, "ES2021.WeakRef") {
            return Some(Lib::Es2021WeakRef);
        }
        if eq_nocase_exec(s, "ESNext.WeakRef") {
            return Some(Lib::EsNextWeakRef);
        }
        if eq_nocase_exec(s, "ES2021.Intl") {
            return Some(Lib::Es2021Intl);
        }
        None
    }
}


/// What module code is generated.
#[derive(PartialEq, Eq, Structural, Clone, Copy, Debug)]
pub enum Module {
    CommonJs,
    Amd,
    System,
    Umd,
    Es6,
    Es2015,
    Es2020,
    EsNext,
    NoModule,
    Es2022,
    Node12,
    NodeNext,
}

impl Module {
    /// The canonical text of this name.
    pub open spec fn spec_text(&self) -> Seq<char> {
        match self {
            Module::CommonJs => "CommonJS"@,
            Module::Amd => "AMD"@,
            Module::System => "System"@,
            Module::Umd => "UMD"@,
            Module::Es6 => "ES6"@,
            Module::Es2015 => "ES2015"@,
            Module::Es2020 => "ES2020"@,
            Module::EsNext => "ESNext"@,
            Module::NoModule => "None"@,
            Module::Es2022 => "ES2022"@,
            Module::Node12 => "Node12"@,
            Module::NodeNext => "NodeNext"@,
        }
    }

    /// Render the canonical text.
    pub fn get_string(&self) -> (r: String)
        ensures
            r@ == self.spec_text(),
    {
        match self {
            Module::CommonJs => String::from_str("CommonJS"),
            Module::Amd => String::from_str("AMD"),
            Module::System => String::from_str("System"),
            Module::Umd => String::from_str("UMD"),
            Module::Es6 => String::from_str("ES6"),
            Module::Es2015 => String::from_str("ES2015"),
            Module::Es2020 => String::from_str("ES2020"),
            Module::EsNext => String::from_str("ESNext"),
            Module::NoModule => String::from_str("None"),
            Module::Es2022 => String::from_str("ES2022"),
            Module::Node12 => String::from_str("Node12"),
            Module::NodeNext => String::from_str("NodeNext"),
        }
    }

    /// Parse a name, ignoring ASCII letter case.
    pub fn from_text(s: &str) -> (r: Option<Self>)
        ensures
            match r {
                Some(v) => eq_nocase(s@, v.spec_text()),
                None => !eq_nocase(s@, "CommonJS"@) &&
            !eq_nocase(s@, "AMD"@) &&
            !eq_nocase(s@, "System"@) &&
            !eq_nocase(s@, "UMD"@) &&
            !eq_nocase(s@, "ES6"@) &&
            !eq_nocase(s@, "ES2015"@) &&
            !eq_nocase(s@, "ES2020"@) &&
            !eq_nocase(s@, "ESNext"@) &&
            !eq_nocase(s@, "None"@) &&
            !eq_nocase(s@, "ES2022"@) &&
            !eq_nocase(s@, "Node12"@) &&
            !eq_nocase(s@, "NodeNext"@),
            },
    {
        if eq_nocase_exec(s, "CommonJS") {
            return Some(Module::CommonJs);
        }
        if eq_nocase_exec(s, "AMD") {
            return Some(Module::Amd);
        }
        if eq_nocase_exec(s, "System") {
            return Some(Module::System);
        }
        if eq_nocase_exec(s, "UMD") {
            return Some(Module::Umd);
        }
        if eq_nocase_exec(s, "ES6") {
            return Some(Module::Es6);
        }
        if eq_nocase_exec(s, "ES2015") {
            return Some(Module::Es2015);
        }
        if eq_nocase_exec(s, "ES2020") {
            return Some(Module::Es2020);
        }
        if eq_nocase_exec(s, "ESNext") {
            return Some(Module::EsNext);
        }
        if eq_nocase_exec(s, "None") {
            return Some(Module::NoModule);
        }
        if eq_nocase_exec(s, "ES2022") {
            return Some(Module::Es2022);
        }
        if eq_nocase_exec(s, "Node12") {
            return Some(Module::Node12);
        }
        if eq_nocase_exec(s, "NodeNext") {
            return Some(Module::NodeNext);
        }
        None
    }
}


/// How modules are resolved.
#[derive(PartialEq, Eq, Structural, Clone, Copy, Debug)]
pub enum ModuleResolution {
    Classic,
    Node,
    Node12,
    NodeNext,
}

impl ModuleResolution {
    /// The canonical text of this name.
    pub open spec fn spec_text(&self) -> Seq<char> {
        match self {
            ModuleResolution::Classic => "Classic"@,
            ModuleResolution::Node => "Node"@,
            ModuleResolution::Node12 => "Node12"@,
            ModuleResolution::NodeNext => "NodeNext"@,
        }
    }

    /// Render the canonical text.
    pub fn get_string(&self) -> (r: String)
        ensures
            r@ == self.spec_text(),
    {
        match self {
            ModuleResolution::Classic => String::from_str("Classic"),
            ModuleResolution::Node => String::from_str("Node"),
            ModuleResolution::Node12 => String::from_str("Node12"),
            ModuleResolution::NodeNext => String::from_str("NodeNext"),
        }
    }

    /// Parse a name, ignoring ASCII letter case.
    pub fn from_text(s: &str) -> (r: Option<Self>)
        ensures
            match r {
                Some(v) => eq_nocase(s@, v.spec_text()),
                None => !eq_nocase(s@, "Classic"@) &&
            !eq_nocase(s@, "Node"@) &&
            !eq_nocase(s@, "Node12"@) &&
            !eq_nocase(s@, "NodeNext"@),
            },
    {
        if eq_nocase_exec(s, "Classic") {
            return Some(ModuleResolution::Classic);
        }
        if eq_nocase_exec(s, "Node") {
            return Some(ModuleResolution::Node);
        }
        if eq_nocase_exec(s, "Node12") {
            return Some(ModuleResolution::Node12);
        }
        if eq_nocase_exec(s, "NodeNext") {
            return Some(ModuleResolution::NodeNext);
        }
        None
    }
}


/// The newline convention of emitted files.
#[derive(PartialEq, Eq, Structural, Clone, Copy, Debug)]
pub enum NewLine {
    Crlf,
    Lf,
}

impl NewLine {
    /// The canonical text of this name.
    pub open spec fn spec_text(&self) -> Seq<char> {
        match self {
            NewLine::Crlf => "crlf"@,
            NewLine::Lf => "lf"@,
        }
    }

    /// Render the canonical text.
    pub fn get_string(&self) -> (r: String)
        ensures
            r@ == self.spec_text(),
    {
        match self {
            NewLine::Crlf => String::from_str("crlf"),
            NewLine::Lf => String::from_str("lf"),
        }
    }

    /// Parse a name, ignoring ASCII letter case.
    pub fn from_text(s: &str) -> (r: Option<Self>)
        ensures
            match r {
                Some(v) => eq_nocase(s@, v.spec_text()),
                None => !eq_nocase(s@, "crlf"@) &&
            !eq_nocase(s@, "lf"@),
            },
    {
        if eq_nocase_exec(s, "crlf") {
            return Some(NewLine::Crlf);
        }
        if eq_nocase_exec(s, "lf") {
            return Some(NewLine::Lf);
        }
        None
    }
}


/// The language version of emitted code.
#[derive(PartialEq, Eq, Structural, Clone, Copy, Debug)]
pub enum Target {
    Es3,
    Es5,
    Es6,
    Es2015,
    Es2016,
    Es2017,
    Es2018,
    Es2019,
    Es2020,
    Es2021,
    Es2022,
    EsNext,
}

impl Target {
    /// The canonical text of this name.
    pub open spec fn spec_text(&self) -> Seq<char> {
        match self {
            Target::Es3 => "ES3"@,
            Target::Es5 => "ES5"@,
            Target::Es6 => "ES6"@,
            Target::Es2015 => "ES2015"@,
            Target::Es2016 => "ES2016"@,
            Target::Es2017 => "ES2017"@,
            Target::Es2018 => "ES2018"@,
            Target::Es2019 => "ES2019"@,
            Target::Es2020 => "ES2020"@,
            Target::Es2021 => "ES2021"@,
            Target::Es2022 => "ES2022"@,
            Target::EsNext => "ESNext"@,
        }
    }

    /// Render the canonical text.
    pub fn get_string(&self) -> (r: String)
        ensures
            r@ == self.spec_text(),
    {
        match self {
            Target::Es3 => String::from_str("ES3"),
            Target::Es5 => String::from_str("ES5"),
            Target::Es6 => String::from_str("ES6"),
            Target::Es2015 => String::from_str("ES2015"),
            Target::Es2016 => String::from_str("ES2016"),
            Target::Es2017 => String::from_str("ES2017"),
            Target::Es2018 => String::from_str("ES2018"),
            Target::Es2019 => String::from_str("ES2019"),
            Target::Es2020 => String::from_str("ES2020"),
            Target::Es2021 => String::from_str("ES2021"),
            Target::Es2022 => String::from_str("ES2022"),
            Target::EsNext => String::from_str("ESNext"),
        }
    }

    /// Parse a name, ignoring ASCII letter case.
    pub fn from_text(s: &str) -> (r: Option<Self>)
        ensures
            match r {
                Some(v) => eq_nocase(s@, v.spec_text()),
                None => !eq_nocase(s@, "ES3"@) &&
            !eq_nocase(s@, "ES5"@) &&
            !eq_nocase(s@, "ES6"@) &&
            !eq_nocase(s@, "ES2015"@) &&
            !eq_nocase(s@, "ES2016"@) &&
            !eq_nocase(s@, "ES2017"@) &&
            !eq_nocase(s@, "ES2018"@) &&
            !eq_nocase(s@, "ES2019"@) &&
            !eq_nocase(s@, "ES2020"@) &&
            !eq_nocase(s@, "ES2021"@) &&
            !eq_nocase(s@, "ES2022"@) &&
            !eq_nocase(s@, "ESNext"@),
            },
    {
        if eq_nocase_exec(s, "ES3") {
            return Some(Target::Es3);
        }
        if eq_nocase_exec(s, "ES5") {
            return Some(Target::Es5);
        }
        if eq_nocase_exec(s, "ES6") {
            return Some(Target::Es6);
        }
        if eq_nocase_exec(s, "ES2015") {
            return Some(Target::Es2015);
        }
        if eq_nocase_exec(s, "ES2016") {
            return Some(Target::Es2016);
        }
        if eq_nocase_exec(s, "ES2017") {
            return Some(Target::Es2017);
        }
        if eq_nocase_exec(s, "ES2018") {
            return Some(Target::Es2018);
        }
        if eq_nocase_exec(s, "ES2019") {
            return Some(Target::Es2019);
        }
        if eq_nocase_exec(s, "ES2020") {
            return Some(Target::Es2020);
        }
        if eq_nocase_exec(s, "ES2021") {
            return Some(Target::Es2021);
        }
        if eq_nocase_exec(s, "ES2022") {
            return Some(Target::Es2022);
        }
        if eq_nocase_exec(s, "ESNext") {
            return Some(Target::EsNext);
        }
        None
    }
}


/// How directories are watched on systems without recursive watching.
#[derive(PartialEq, Eq, Structural, Clone, Copy, Debug)]
pub enum WatchDirectory {
    UseFsEvents,
    FixedPollingInterval,
    DynamicPriorityPolling,
    FixedChunkSizePolling,
}

impl WatchDirectory {
    /// The canonical text of this name.
    pub open spec fn spec_text(&self) -> Seq<char> {
        match self {
            WatchDirectory::UseFsEvents => "useFsEvents"@,
            WatchDirectory::FixedPollingInterval => "fixedPollingInterval"@,
            WatchDirectory::DynamicPriorityPolling => "dynamicPriorityPolling"@,
            WatchDirectory::FixedChunkSizePolling => "fixedChunkSizePolling"@,
        }
    }

    /// Render the canonical text.
    pub fn get_string(&self) -> (r: String)
        ensures
            r@ == self.spec_text(),
    {
        match self {
            WatchDirectory::UseFsEvents => String::from_str("useFsEvents"),
            WatchDirectory::FixedPollingInterval => String::from_str("fixedPollingInterval"),
            WatchDirectory::DynamicPriorityPolling => String::from_str("dynamicPriorityPolling"),
            WatchDirectory::FixedChunkSizePolling => String::from_str("fixedChunkSizePolling"),
        }
    }

    /// Parse a name, ignoring ASCII letter case.
    pub fn from_text(s: &str) -> (r: Option<Self>)
        ensures
            match r {
                Some(v) => eq_nocase(s@, v.spec_text()),
                None => !eq_nocase(s@, "useFsEvents"@) &&
            !eq_nocase(s@, "fixedPollingInterval"@) &&
            !eq_nocase(s@, "dynamicPriorityPolling"@) &&
            !eq_nocase(s@, "fixedChunkSizePolling"@),
            },
    {
        if eq_nocase_exec(s, "useFsEvents") {
            return Some(WatchDirectory::UseFsEvents);
        }
        if eq_nocase_exec(s, "fixedPollingInterval") {
            return Some(WatchDirectory::FixedPollingInterval);
        }
        if eq_nocase_exec(s, "dynamicPriorityPolling") {
            return Some(WatchDirectory::DynamicPriorityPolling);
        }
        if eq_nocase_exec(s, "fixedChunkSizePolling") {
            return Some(WatchDirectory::FixedChunkSizePolling);
        }
        None
    }
}


/// How individual files are watched.
#[derive(PartialEq, Eq, Structural, Clone, Copy, Debug)]
pub enum WatchFile {
    FixedPollingInterval,
    PriorityPollingInterval,
    DynamicPriorityPolling,
    UseFsEvents,
    UseFsEventsOnParentDirectory,
    FixedChunkSizePolling,
}

impl WatchFile {
    /// The canonical text of this name.
    pub open spec fn spec_text(&self) -> Seq<char> {
        match self {
            WatchFile::FixedPollingInterval => "fixedPollingInterval"@,
            WatchFile::PriorityPollingInterval => "priorityPollingInterval"@,
            WatchFile::DynamicPriorityPolling => "dynamicPriorityPolling"@,
            WatchFile::UseFsEvents => "useFsEvents"@,
            WatchFile::UseFsEventsOnParentDirectory => "useFsEventsOnParentDirectory"@,
            WatchFile::FixedChunkSizePolling => "fixedChunkSizePolling"@,
        }
    }

    /// Render the canonical text.
    pub fn get_string(&self) -> (r: String)
        ensures
            r@ == self.spec_text(),
    {
        match self {
            WatchFile::FixedPollingInterval => String::from_str("fixedPollingInterval"),
            WatchFile::PriorityPollingInterval => String::from_str("priorityPollingInterval"),
            WatchFile::DynamicPriorityPolling => String::from_str("dynamicPriorityPolling"),
            WatchFile::UseFsEvents => String::from_str("useFsEvents"),
            WatchFile::UseFsEventsOnParentDirectory => String::from_str("useFsEventsOnParentDirectory"),
            WatchFile::FixedChunkSizePolling => String::from_str("fixedChunkSizePolling"),
        }
    }

    /// Parse a name, ignoring ASCII letter case.
    pub fn from_text(s: &str) -> (r: Option<Self>)
        ensures
            match r {
                Some(v) => eq_nocase(s@, v.spec_text()),
                None => !eq_nocase(s@, "fixedPollingInterval"@) &&
            !eq_nocase(s@, "priorityPollingInterval"@) &&
            !eq_nocase(s@, "dynamicPriorityPolling"@) &&
            !eq_nocase(s@, "useFsEvents"@) &&
            !eq_nocase(s@, "useFsEventsOnParentDirectory"@) &&
            !eq_nocase(s@, "fixedChunkSizePolling"@),
            },
    {
        if eq_nocase_exec(s, "fixedPollingInterval") {
            return Some(WatchFile::FixedPollingInterval);
        }
        if eq_nocase_exec(s, "priorityPollingInterval") {
            return Some(WatchFile::PriorityPollingInterval);
        }
        if eq_nocase_exec(s, "dynamicPriorityPolling") {
            return Some(WatchFile::DynamicPriorityPolling);
        }
        if eq_nocase_exec(s, "useFsEvents") {
            return Some(WatchFile::UseFsEvents);
        }
        if eq_nocase_exec(s, "useFsEventsOnParentDirectory") {
            return Some(WatchFile::UseFsEventsOnParentDirectory);
        }
        if eq_nocase_exec(s, "fixedChunkSizePolling") {
            return Some(WatchFile::FixedChunkSizePolling);
        }
        None
    }
}

} // verus!
