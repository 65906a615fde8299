//! The attribute and derive front doors as the parser hands them over:
//! the test attribute's `key = value` options with their literal values,
//! the marked item's kind and name, and a derived struct's fields with
//! their type's last path segment and their `component` and `port`
//! attributes. From these come the test's registration and the component
//! impls' contents: its children by shape, its ports with their kind and
//! whether they must be connected.

use vstd::prelude::*;

use crate::text::{parse_u64, str_eq, to_string, u64_from_str};

verus! {

/// An option's value: a string, integer or boolean literal (an integer by
/// its base-10 digits), another literal, or an expression that is no
/// literal.
pub enum ArgValue {
    Str(String),
    Int(String),
    Bool(bool),
    OtherLit,
    NotLit,
}

/// One `key` or `key = value` of the test attribute.
pub struct OptionArg {
    pub key: String,
    pub value: Option<ArgValue>,
}

/// The test attribute's options.
pub struct TestOptions {
    pub name: Option<String>,
    pub timeout_time: Option<u64>,
    pub timeout_unit: Option<String>,
    pub skip: bool,
    pub expect_fail: bool,
    pub expect_error: Option<String>,
}

pub struct TestOptionsView {
    pub name: Option<Seq<char>>,
    pub timeout_time: Option<u64>,
    pub timeout_unit: Option<Seq<char>>,
    pub skip: bool,
    pub expect_fail: bool,
    pub expect_error: Option<Seq<char>>,
}

pub open spec fn sv(o: Option<String>) -> Option<Seq<char>> {
    match o {
        None => None,
        Some(s) => Some(s@),
    }
}

impl View for TestOptions {
    type V = TestOptionsView;

    open spec fn view(&self) -> TestOptionsView {
        TestOptionsView {
            name: sv(self.name),
            timeout_time: self.timeout_time,
            timeout_unit: sv(self.timeout_unit),
            skip: self.skip,
            expect_fail: self.expect_fail,
            expect_error: sv(self.expect_error),
        }
    }
}

pub open spec fn default_options() -> TestOptionsView {
    TestOptionsView {
        name: None,
        timeout_time: None,
        timeout_unit: None,
        skip: false,
        expect_fail: false,
        expect_error: None,
    }
}

/// The value kinds an option may take.
pub enum ValueKind {
    Str,
    Int,
    Flag,
}

/// The error text when `key`'s value is not of the kind it needs.
pub open spec fn value_error(key: Seq<char>, v: Option<ArgValue>, kind: ValueKind) -> Option<Seq<char>> {
    match v {
        None => match kind {
            ValueKind::Flag => None,
            _ => Some(key + " requires a value"@),
        },
        Some(ArgValue::NotLit) => Some(key + " requires a literal value"@),
        Some(ArgValue::Str(_)) => match kind {
            ValueKind::Str => None,
            ValueKind::Int => Some(key + " requires an integer literal"@),
            ValueKind::Flag => Some(key + " requires true or false"@),
        },
        Some(ArgValue::Int(d)) => match kind {
            ValueKind::Int => if u64_from_str(d@) is Some {
                None
            } else {
                Some("number too large to fit in target type"@)
            },
            ValueKind::Str => Some(key + " requires a string literal"@),
            ValueKind::Flag => Some(key + " requires true or false"@),
        },
        Some(ArgValue::Bool(_)) => match kind {
            ValueKind::Flag => None,
            ValueKind::Str => Some(key + " requires a string literal"@),
            ValueKind::Int => Some(key + " requires an integer literal"@),
        },
        Some(ArgValue::OtherLit) => match kind {
            ValueKind::Str => Some(key + " requires a string literal"@),
            ValueKind::Int => Some(key + " requires an integer literal"@),
            ValueKind::Flag => Some(key + " requires true or false"@),
        },
    }
}

pub open spec fn str_of(v: Option<ArgValue>) -> Seq<char> {
    match v {
        Some(ArgValue::Str(s)) => s@,
        _ => Seq::empty(),
    }
}

pub open spec fn int_of(v: Option<ArgValue>) -> u64 {
    match v {
        Some(ArgValue::Int(d)) => match u64_from_str(d@) {
            Some(n) => n,
            None => 0,
        },
        _ => 0,
    }
}

pub open spec fn flag_of(v: Option<ArgValue>) -> bool {
    match v {
        Some(ArgValue::Bool(b)) => b,
        _ => true,
    }
}

/// The kind of value an option takes, or `None` for an unknown option.
pub open spec fn option_kind(key: Seq<char>) -> Option<ValueKind> {
    if key == "name"@ || key == "timeout_unit"@ || key == "expect_error"@ {
        Some(ValueKind::Str)
    } else if key == "timeout_time"@ {
        Some(ValueKind::Int)
    } else if key == "skip"@ || key == "expect_fail"@ {
        Some(ValueKind::Flag)
    } else {
        None
    }
}

/// One option applied to those read before it.
pub open spec fn apply_option(a: OptionArg, acc: TestOptionsView) -> Result<TestOptionsView, Seq<char>> {
    let key = a.key@;
    match option_kind(key) {
        None => Err("unknown #[rustdv::test] option"@),
        Some(kind) => match value_error(key, a.value, kind) {
            Some(e) => Err(e),
            None => if key == "name"@ {
                Ok(TestOptionsView { name: Some(str_of(a.value)), ..acc })
            } else if key == "timeout_unit"@ {
                Ok(TestOptionsView { timeout_unit: Some(str_of(a.value)), ..acc })
            } else if key == "expect_error"@ {
                Ok(TestOptionsView { expect_error: Some(str_of(a.value)), ..acc })
            } else if key == "timeout_time"@ {
                Ok(TestOptionsView { timeout_time: Some(int_of(a.value)), ..acc })
            } else if key == "skip"@ {
                Ok(TestOptionsView { skip: flag_of(a.value), ..acc })
            } else {
                Ok(TestOptionsView { expect_fail: flag_of(a.value), ..acc })
            },
        },
    }
}

/// The options after the first `n` arguments, or the first refusal.
pub open spec fn options_after(args: Seq<OptionArg>, n: nat) -> Result<TestOptionsView, Seq<char>>
    decreases n,
{
    if n == 0 {
        Ok(default_options())
    } else {
        match options_after(args, (n - 1) as nat) {
            Ok(acc) => apply_option(args[n - 1], acc),
            Err(e) => Err(e),
        }
    }
}

pub open spec fn options_result_view(r: Result<TestOptions, String>) -> Result<TestOptionsView, Seq<char>> {
    match r {
        Ok(o) => Ok(o@),
        Err(e) => Err(e@),
    }
}

proof fn lemma_refusal_stands(args: Seq<OptionArg>, n: nat, m: nat)
    requires
        n <= m,
        options_after(args, n) is Err,
    ensures
        options_after(args, m) == options_after(args, n),
    decreases m - n,
{
    if m > n {
        lemma_refusal_stands(args, n, (m - 1) as nat);
    }
}

fn kind_of(key: &str) -> (k: Option<ValueKind>)
    ensures
        k == option_kind(key@),
{
    if str_eq(key, "name") || str_eq(key, "timeout_unit") || str_eq(key, "expect_error") {
        Some(ValueKind::Str)
    } else if str_eq(key, "timeout_time") {
        Some(ValueKind::Int)
    } else if str_eq(key, "skip") || str_eq(key, "expect_fail") {
        Some(ValueKind::Flag)
    } else {
        None
    }
}

fn keyed(key: &str, msg: &str) -> (s: String)
    ensures
        s@ == key@ + msg@,
{
    let mut s = to_string(key);
    s.append(msg);
    s
}

fn check_value(key: &str, v: &Option<ArgValue>, kind: &ValueKind) -> (e: Option<String>)
    ensures
        sv(e) == value_error(key@, *v, *kind),
{
    match v {
        None => match kind {
            ValueKind::Flag => None,
            _ => Some(keyed(key, " requires a value")),
        },
        Some(ArgValue::NotLit) => Some(keyed(key, " requires a literal value")),
        Some(ArgValue::Str(_)) => match kind {
            ValueKind::Str => None,
            ValueKind::Int => Some(keyed(key, " requires an integer literal")),
            ValueKind::Flag => Some(keyed(key, " requires true or false")),
        },
        Some(ArgValue::Int(d)) => match kind {
            ValueKind::Int => if parse_u64(d.as_str()).is_some() {
                None
            } else {
                Some(to_string("number too large to fit in target type"))
            },
            ValueKind::Str => Some(keyed(key, " requires a string literal")),
            ValueKind::Flag => Some(keyed(key, " requires true or false")),
        },
        Some(ArgValue::Bool(_)) => match kind {
            ValueKind::Flag => None,
            ValueKind::Str => Some(keyed(key, " requires a string literal")),
            ValueKind::Int => Some(keyed(key, " requires an integer literal")),
        },
        Some(ArgValue::OtherLit) => match kind {
            ValueKind::Str => Some(keyed(key, " requires a string literal")),
            ValueKind::Int => Some(keyed(key, " requires an integer literal")),
            ValueKind::Flag => Some(keyed(key, " requires true or false")),
        },
    }
}

/// The test attribute's options, read argument by argument: the first
/// refused argument ends the reading with its reason.
pub fn parse_options(args: &Vec<OptionArg>) -> (r: Result<TestOptions, String>)
    ensures
        options_result_view(r) == options_after(args@, args@.len()),
{
    let mut acc = TestOptions {
        name: None,
        timeout_time: None,
        timeout_unit: None,
        skip: false,
        expect_fail: false,
        expect_error: None,
    };
    let mut i: usize = 0;
    while i < args.len()
        invariant
            i <= args@.len(),
            options_after(args@, i as nat) == Ok::<TestOptionsView, Seq<char>>(acc@),
        decreases args.len() - i,
    {
        let a = &args[i];
        let key = a.key.as_str();
        let kind = match kind_of(key) {
            None => {
                proof {
                    lemma_refusal_stands(args@, (i + 1) as nat, args@.len());
                }
                return Err(to_string("unknown #[rustdv::test] option"));
            },
            Some(k) => k,
        };
        match check_value(key, &a.value, &kind) {
            Some(e) => {
                proof {
                    lemma_refusal_stands(args@, (i + 1) as nat, args@.len());
                }
                return Err(e);
            },
            None => {},
        }
        if str_eq(key, "name") || str_eq(key, "timeout_unit") || str_eq(key, "expect_error") {
            let s = match &a.value {
                Some(ArgValue::Str(s)) => to_string(s.as_str()),
                _ => String::new(),
            };
            if str_eq(key, "name") {
                acc.name = Some(s);
            } else if str_eq(key, "timeout_unit") {
                acc.timeout_unit = Some(s);
            } else {
                acc.expect_error = Some(s);
            }
        } else if str_eq(key, "timeout_time") {
            let t = match &a.value {
                Some(ArgValue::Int(d)) => match parse_u64(d.as_str()) {
                    Some(n) => n,
                    None => 0,
                },
                _ => 0,
            };
            acc.timeout_time = Some(t);
        } else {
            let f = match &a.value {
                Some(ArgValue::Bool(b)) => *b,
                _ => true,
            };
            if str_eq(key, "skip") {
                acc.skip = f;
            } else {
                acc.expect_fail = f;
            }
        }
        i = i + 1;
    }
    Ok(acc)
}

/// What the test attribute is put on.
pub enum MarkedItem {
    Function(String),
    Struct(String),
    TypeAlias(String),
    Other,
}

/// How the registered test runs: by calling the function, or by running a
/// default-built component as a test.
#[derive(Copy, Clone, Debug, PartialEq, Eq, Structural)]
pub enum TestForm {
    Function,
    Component,
}

/// What the test attribute emits besides the item: the registration of
/// `item_name` under `test_name`, with its timeout, flags and expected
/// error, in a module and beside a constant named after the item.
pub struct TestExpansion {
    pub item_name: String,
    pub form: TestForm,
    pub test_name: String,
    pub timeout: Option<(u64, String)>,
    pub skip: bool,
    pub expect_fail: bool,
    pub expect_error: Option<String>,
    pub registration_module: String,
    pub module_path_constant: String,
}

pub open spec fn marked_name(item: MarkedItem) -> Option<(TestForm, Seq<char>)> {
    match item {
        MarkedItem::Function(n) => Some((TestForm::Function, n@)),
        MarkedItem::Struct(n) => Some((TestForm::Component, n@)),
        MarkedItem::TypeAlias(n) => Some((TestForm::Component, n@)),
        MarkedItem::Other => None,
    }
}

/// The expansion made from options `o` for an item of form `form` named `n`.
pub open spec fn expands_to(x: TestExpansion, o: TestOptionsView, form: TestForm, n: Seq<char>) -> bool {
    &&& x.item_name@ == n
    &&& x.form == form
    &&& x.test_name@ == match o.name {
        Some(nm) => nm,
        None => n,
    }
    &&& match x.timeout {
        None => o.timeout_time is None,
        Some((t, u)) => o.timeout_time == Some(t) && u@ == match o.timeout_unit {
            Some(u) => u,
            None => "ns"@,
        },
    }
    &&& x.skip == o.skip
    &&& x.expect_fail == o.expect_fail
    &&& sv(x.expect_error) == o.expect_error
    &&& x.registration_module@ == "__rustdv_test_registration_"@ + n
    &&& x.module_path_constant@ == "__RUSTDV_TEST_MODULE_"@ + n
}

/// The test attribute's expansion: the options are read first, then the
/// item must be a function, a struct or a type alias.
pub fn expand_test(args: &Vec<OptionArg>, item: &MarkedItem) -> (r: Result<TestExpansion, String>)
    ensures
        match (options_after(args@, args@.len()), marked_name(*item)) {
            (Err(e), _) => r matches Err(m) && m@ == e,
            (Ok(_), None) => r matches Err(m) && m@
                == "#[rustdv::test] must be applied to an async fn, a struct, or a type alias"@,
            (Ok(o), Some((form, n))) => r matches Ok(x) && expands_to(x, o, form, n),
        },
{
    let opts = match parse_options(args) {
        Ok(o) => o,
        Err(e) => return Err(e),
    };
    let (form, name) = match item {
        MarkedItem::Function(n) => (TestForm::Function, n.as_str()),
        MarkedItem::Struct(n) => (TestForm::Component, n.as_str()),
        MarkedItem::TypeAlias(n) => (TestForm::Component, n.as_str()),
        MarkedItem::Other => {
            return Err(
                to_string("#[rustdv::test] must be applied to an async fn, a struct, or a type alias"),
            )
        },
    };
    let test_name = match opts.name {
        Some(nm) => nm,
        None => to_string(name),
    };
    let timeout = match opts.timeout_time {
        Some(t) => Some(
            (
                t,
                match opts.timeout_unit {
                    Some(u) => u,
                    None => to_string("ns"),
                },
            ),
        ),
        None => None,
    };
    let mut registration_module = to_string("__rustdv_test_registration_");
    registration_module.append(name);
    let mut module_path_constant = to_string("__RUSTDV_TEST_MODULE_");
    module_path_constant.append(name);
    Ok(
        TestExpansion {
            item_name: to_string(name),
            form,
            test_name,
            timeout,
            skip: opts.skip,
            expect_fail: opts.expect_fail,
            expect_error: opts.expect_error,
            registration_module,
            module_path_constant,
        },
    )
}

/// What `str::to_uppercase` makes of `s`.
pub uninterp spec fn uppercase(s: Seq<char>) -> Seq<char>;

/// std `str::to_uppercase`: the uppercase equivalent of `s` (Unicode's
/// `Uppercase` mapping). Its result is stated only by name.
#[verifier::external_body]
fn to_uppercase(s: &str) -> (r: String)
    ensures
        r@ == uppercase(s@),
{
    s.to_uppercase()
}

/// How a child field is held, read from its type's last path segment.
#[derive(Copy, Clone, Debug, PartialEq, Eq, Structural)]
pub enum ChildKind {
    RustdvComp,
    Option,
    Vec,
    Plain,
}

/// A named field as the derive sees it: its name, the last segment of its
/// type's path (none for a qualified or non-path type), whether it carries
/// `#[component]`, and each of its `#[port(..)]` attributes with the one
/// identifier it holds or, when it holds no single identifier, the parse
/// error's text.
pub struct FieldDecl {
    pub name: String,
    pub type_tail: Option<String>,
    pub component: bool,
    pub ports: Vec<Result<String, String>>,
}

/// The body of the type the derive is put on.
pub enum DerivedShape {
    NamedFields(Vec<FieldDecl>),
    Unit,
    TupleFields,
    NotAStruct,
}

/// A field read for the expansion: its name, how it is held when it is a
/// child component, and its port kind when it is a port.
pub struct FieldInfo {
    pub name: String,
    pub child: Option<ChildKind>,
    pub port: Option<String>,
}

pub struct FieldInfoView {
    pub name: Seq<char>,
    pub child: Option<ChildKind>,
    pub port: Option<Seq<char>>,
}

impl View for FieldInfo {
    type V = FieldInfoView;

    open spec fn view(&self) -> FieldInfoView {
        FieldInfoView { name: self.name@, child: self.child, port: sv(self.port) }
    }
}

pub open spec fn child_kind_of(type_tail: Option<Seq<char>>) -> ChildKind {
    match type_tail {
        Some(n) => if n == "RustdvComp"@ {
            ChildKind::RustdvComp
        } else if n == "Option"@ {
            ChildKind::Option
        } else if n == "Vec"@ {
            ChildKind::Vec
        } else {
            ChildKind::Plain
        },
        None => ChildKind::Plain,
    }
}

pub fn child_kind(type_tail: &Option<String>) -> (k: ChildKind)
    ensures
        k == child_kind_of(sv(*type_tail)),
{
    match type_tail {
        Some(n) => if str_eq(n.as_str(), "RustdvComp") {
            ChildKind::RustdvComp
        } else if str_eq(n.as_str(), "Option") {
            ChildKind::Option
        } else if str_eq(n.as_str(), "Vec") {
            ChildKind::Vec
        } else {
            ChildKind::Plain
        },
        None => ChildKind::Plain,
    }
}

/// A field's port kind: none without a port attribute, refused when there
/// are two or more, else the identifier of the one there is.
pub open spec fn port_of(ports: Seq<Result<String, String>>) -> Result<Option<Seq<char>>, Seq<char>> {
    if ports.len() == 0 {
        Ok(None)
    } else if ports.len() >= 2 {
        Err("a field may have only one #[port(...)] attribute"@)
    } else {
        match ports[0] {
            Ok(id) => Ok(Some(id@)),
            Err(e) => Err(e@),
        }
    }
}

pub fn port_attr(f: &FieldDecl) -> (r: Result<Option<String>, String>)
    ensures
        match port_of(f.ports@) {
            Ok(p) => r matches Ok(q) && sv(q) == p,
            Err(e) => r matches Err(m) && m@ == e,
        },
{
    if f.ports.len() == 0 {
        Ok(None)
    } else if f.ports.len() >= 2 {
        Err(to_string("a field may have only one #[port(...)] attribute"))
    } else {
        match &f.ports[0] {
            Ok(id) => Ok(Some(to_string(id.as_str()))),
            Err(e) => Err(to_string(e.as_str())),
        }
    }
}

pub open spec fn info_of(f: FieldDecl) -> Result<FieldInfoView, Seq<char>> {
    match port_of(f.ports@) {
        Err(e) => Err(e),
        Ok(port) => if f.component && port is Some {
            Err("a field cannot be both #[component] and #[port(...)]"@)
        } else {
            Ok(
                FieldInfoView {
                    name: f.name@,
                    child: if f.component {
                        Some(child_kind_of(sv(f.type_tail)))
                    } else {
                        None
                    },
                    port,
                },
            )
        },
    }
}

/// The first `n` fields read, or the first refusal.
pub open spec fn infos_after(fs: Seq<FieldDecl>, n: nat) -> Result<Seq<FieldInfoView>, Seq<char>>
    decreases n,
{
    if n == 0 {
        Ok(Seq::empty())
    } else {
        match infos_after(fs, (n - 1) as nat) {
            Ok(acc) => match info_of(fs[n - 1]) {
                Ok(i) => Ok(acc.push(i)),
                Err(e) => Err(e),
            },
            Err(e) => Err(e),
        }
    }
}

pub open spec fn fields_of(shape: DerivedShape) -> Result<Seq<FieldInfoView>, Seq<char>> {
    match shape {
        DerivedShape::NamedFields(fs) => infos_after(fs@, fs@.len()),
        DerivedShape::Unit => Ok(Seq::empty()),
        DerivedShape::TupleFields => Err(
            "#[derive(Component)] requires named fields, or a unit struct"@,
        ),
        DerivedShape::NotAStruct => Err("#[derive(Component)] supports only structs"@),
    }
}

proof fn lemma_field_refusal_stands(fs: Seq<FieldDecl>, n: nat, m: nat)
    requires
        n <= m,
        infos_after(fs, n) is Err,
    ensures
        infos_after(fs, m) == infos_after(fs, n),
    decreases m - n,
{
    if m > n {
        lemma_field_refusal_stands(fs, n, (m - 1) as nat);
    }
}

/// The derived struct's fields, read in order; a unit struct has none.
pub fn fields(shape: &DerivedShape) -> (r: Result<Vec<FieldInfo>, String>)
    ensures
        match fields_of(*shape) {
            Ok(v) => r matches Ok(x) && x@.map_values(|i: FieldInfo| i@) == v,
            Err(e) => r matches Err(m) && m@ == e,
        },
{
    let fs = match shape {
        DerivedShape::NamedFields(fs) => fs,
        DerivedShape::Unit => {
            let v: Vec<FieldInfo> = Vec::new();
            assert(v@.map_values(|i: FieldInfo| i@) =~= Seq::<FieldInfoView>::empty());
            return Ok(v);
        },
        DerivedShape::TupleFields => {
            return Err(to_string("#[derive(Component)] requires named fields, or a unit struct"));
        },
        DerivedShape::NotAStruct => {
            return Err(to_string("#[derive(Component)] supports only structs"));
        },
    };
    let mut out: Vec<FieldInfo> = Vec::new();
    let mut i: usize = 0;
    assert(out@.map_values(|x: FieldInfo| x@) =~= Seq::<FieldInfoView>::empty());
    while i < fs.len()
        invariant
            i <= fs@.len(),
            fields_of(*shape) == infos_after(fs@, fs@.len()),
            infos_after(fs@, i as nat) == Ok::<Seq<FieldInfoView>, Seq<char>>(
                out@.map_values(|x: FieldInfo| x@),
            ),
        decreases fs.len() - i,
    {
        let f = &fs[i];
        let port = match port_attr(f) {
            Ok(p) => p,
            Err(e) => {
                proof {
                    lemma_field_refusal_stands(fs@, (i + 1) as nat, fs@.len());
                }
                return Err(e);
            },
        };
        if f.component && port.is_some() {
            proof {
                lemma_field_refusal_stands(fs@, (i + 1) as nat, fs@.len());
            }
            return Err(to_string("a field cannot be both #[component] and #[port(...)]"));
        }
        let child = if f.component {
            Some(child_kind(&f.type_tail))
        } else {
            None
        };
        let info = FieldInfo { name: to_string(f.name.as_str()), child, port };
        let ghost before = out@;
        out.push(info);
        assert(out@.map_values(|x: FieldInfo| x@) =~= before.map_values(|x: FieldInfo| x@).push(
            info@,
        ));
        i = i + 1;
    }
    Ok(out)
}

/// The children the impl walks, in field order, each with how it is held.
pub open spec fn children_of(infos: Seq<FieldInfoView>) -> Seq<(Seq<char>, ChildKind)>
    decreases infos.len(),
{
    if infos.len() == 0 {
        Seq::empty()
    } else {
        let r = children_of(infos.drop_last());
        match infos.last().child {
            Some(k) => r.push((infos.last().name, k)),
            None => r,
        }
    }
}

pub open spec fn known_port_kind(k: Seq<char>) -> bool {
    k == "put"@ || k == "get"@ || k == "peek"@ || k == "publish"@ || k == "subscribe"@ || k
        == "seq_item"@
}

/// A port the component declares: its field, its kind, whether it must be
/// connected (all but analysis ports), the constant that names it for
/// `connect`, and that constant's doc text.
pub struct PortPlan {
    pub field: String,
    pub kind: String,
    pub required: bool,
    pub constant: String,
    pub doc: String,
}

pub struct PortPlanView {
    pub field: Seq<char>,
    pub kind: Seq<char>,
    pub required: bool,
    pub constant: Seq<char>,
    pub doc: Seq<char>,
}

impl View for PortPlan {
    type V = PortPlanView;

    open spec fn view(&self) -> PortPlanView {
        PortPlanView {
            field: self.field@,
            kind: self.kind@,
            required: self.required,
            constant: self.constant@,
            doc: self.doc@,
        }
    }
}

pub open spec fn port_plan_of(field: Seq<char>, kind: Seq<char>) -> PortPlanView {
    PortPlanView {
        field,
        kind,
        required: !(kind == "publish"@ || kind == "subscribe"@),
        constant: uppercase(field),
        doc: "The `"@ + field + "` port, for `connect`."@,
    }
}

/// The ports, in field order; the first port of an unknown kind refuses
/// the derive.
pub open spec fn ports_of(infos: Seq<FieldInfoView>) -> Result<Seq<PortPlanView>, Seq<char>>
    decreases infos.len(),
{
    if infos.len() == 0 {
        Ok(Seq::empty())
    } else {
        match ports_of(infos.drop_last()) {
            Err(e) => Err(e),
            Ok(r) => match infos.last().port {
                None => Ok(r),
                Some(k) => if known_port_kind(k) {
                    Ok(r.push(port_plan_of(infos.last().name, k)))
                } else {
                    Err("expected put, get, peek, publish, subscribe, or seq_item"@)
                },
            },
        }
    }
}

/// What the component derive emits for struct `name`: the children it
/// walks, the ports it declares (with a port lookup only when there are
/// any), child resolution and the run-phase hand-off only when a child is
/// a factory slot, and a factory registration only for a struct without
/// generic parameters.
pub struct ComponentExpansion {
    pub name: String,
    pub children: Vec<(String, ChildKind)>,
    pub ports: Vec<PortPlan>,
    pub port_impl: bool,
    pub resolve_impl: bool,
    pub registration: bool,
}

pub open spec fn has_slot_child(cs: Seq<(Seq<char>, ChildKind)>) -> bool {
    exists|i: int| 0 <= i < cs.len() && (#[trigger] cs[i]).1 == ChildKind::RustdvComp
}

pub open spec fn expansion_of(x: ComponentExpansion, name: Seq<char>, generic_params: nat, infos: Seq<FieldInfoView>, ports: Seq<PortPlanView>) -> bool {
    &&& x.name@ == name
    &&& x.children@.map_values(|c: (String, ChildKind)| (c.0@, c.1)) == children_of(infos)
    &&& x.ports@.map_values(|p: PortPlan| p@) == ports
    &&& x.port_impl == (ports.len() > 0)
    &&& x.resolve_impl == has_slot_child(children_of(infos))
    &&& x.registration == (generic_params == 0)
}

/// The component derive's expansion for struct `name` with
/// `generic_params` generic parameters and body `shape`.
pub fn expand_component(name: &str, generic_params: usize, shape: &DerivedShape) -> (r: Result<ComponentExpansion, String>)
    ensures
        match fields_of(*shape) {
            Err(e) => r matches Err(m) && m@ == e,
            Ok(infos) => match ports_of(infos) {
                Err(e) => r matches Err(m) && m@ == e,
                Ok(ports) => r matches Ok(x) && expansion_of(x, name@, generic_params as nat, infos, ports),
            },
        },
{
    let infos = match fields(shape) {
        Ok(v) => v,
        Err(e) => return Err(e),
    };
    let ghost iv = infos@.map_values(|i: FieldInfo| i@);
    let mut children: Vec<(String, ChildKind)> = Vec::new();
    let mut ports: Vec<PortPlan> = Vec::new();
    let mut resolve_impl = false;
    let mut i: usize = 0;
    assert(children@.map_values(|c: (String, ChildKind)| (c.0@, c.1)) =~= children_of(iv.take(0)));
    assert(ports@.map_values(|p: PortPlan| p@) =~= Seq::<PortPlanView>::empty());
    while i < infos.len()
        invariant
            i <= infos@.len(),
            iv == infos@.map_values(|x: FieldInfo| x@),
            fields_of(*shape) == Ok::<Seq<FieldInfoView>, Seq<char>>(iv),
            children@.map_values(|c: (String, ChildKind)| (c.0@, c.1)) == children_of(iv.take(i as int)),
            resolve_impl == has_slot_child(children_of(iv.take(i as int))),
            ports_of(iv.take(i as int)) == Ok::<Seq<PortPlanView>, Seq<char>>(
                ports@.map_values(|p: PortPlan| p@),
            ),
        decreases infos.len() - i,
    {
        let f = &infos[i];
        let ghost pre = iv.take(i as int);
        let ghost now = iv.take(i + 1);
        assert(now.drop_last() =~= pre);
        assert(now.last() == f@);
        match f.child {
            Some(k) => {
                let ghost cb = children@;
                children.push((to_string(f.name.as_str()), k));
                assert(children@.map_values(|c: (String, ChildKind)| (c.0@, c.1)) =~= cb.map_values(
                    |c: (String, ChildKind)| (c.0@, c.1),
                ).push((f.name@, k)));
                proof {
                    let cs = children_of(now);
                    assert(cs == children_of(pre).push((f.name@, k)));
                    if k == ChildKind::RustdvComp {
                        assert(cs[cs.len() - 1].1 == ChildKind::RustdvComp);
                    } else if has_slot_child(cs) {
                        let j = choose|j: int| 0 <= j < cs.len() && (#[trigger] cs[j]).1 == ChildKind::RustdvComp;
                        assert(j < cs.len() - 1);
                        assert(children_of(pre)[j] == cs[j]);
                    }
                    if has_slot_child(children_of(pre)) {
                        let j = choose|j: int| 0 <= j < children_of(pre).len() && (#[trigger] children_of(pre)[j]).1 == ChildKind::RustdvComp;
                        assert(cs[j] == children_of(pre)[j]);
                    }
                }
                if k == ChildKind::RustdvComp {
                    resolve_impl = true;
                }
            },
            None => {},
        }
        match &f.port {
            Some(kind) => {
                let k = kind.as_str();
                if !(str_eq(k, "put") || str_eq(k, "get") || str_eq(k, "peek") || str_eq(k, "publish")
                    || str_eq(k, "subscribe") || str_eq(k, "seq_item")) {
                    proof {
                        lemma_ports_refusal_stands(iv, (i + 1) as nat, iv.len());
                        assert(iv.take(iv.len() as int) =~= iv);
                    }
                    return Err(to_string("expected put, get, peek, publish, subscribe, or seq_item"));
                }
                let required = !(str_eq(k, "publish") || str_eq(k, "subscribe"));
                let constant = to_uppercase(f.name.as_str());
                let mut doc = to_string("The `");
                doc.append(f.name.as_str());
                doc.append("` port, for `connect`.");
                let plan = PortPlan { field: to_string(f.name.as_str()), kind: to_string(k), required, constant, doc };
                let ghost pb = ports@;
                ports.push(plan);
                assert(ports@.map_values(|p: PortPlan| p@) =~= pb.map_values(|p: PortPlan| p@).push(
                    port_plan_of(f.name@, k@),
                ));
            },
            None => {},
        }
        i = i + 1;
    }
    assert(iv.take(infos.len() as int) =~= iv);
    let port_impl = ports.len() > 0;
    Ok(
        ComponentExpansion {
            name: to_string(name),
            children,
            ports,
            port_impl,
            resolve_impl,
            registration: generic_params == 0,
        },
    )
}

proof fn lemma_ports_refusal_stands(infos: Seq<FieldInfoView>, n: nat, m: nat)
    requires
        n <= m <= infos.len(),
        ports_of(infos.take(n as int)) is Err,
    ensures
        ports_of(infos.take(m as int)) == ports_of(infos.take(n as int)),
    decreases m - n,
{
    if m > n {
        lemma_ports_refusal_stands(infos, n, (m - 1) as nat);
        assert(infos.take(m as int).drop_last() =~= infos.take(m - 1));
    }
}

} // verus!
