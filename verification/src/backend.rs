//! The calls into Cranelift that the code generator makes, each behind a
//! small function whose contract states what Verus may believe of it.
//!
//! Cranelift's objects are opaque here. Each is held in a struct of this
//! module whose ghost fields record what has been handed to Cranelift through
//! these functions: the settings set, the instructions appended to a function
//! body, the functions declared and defined in the object module. The
//! contracts state how each call changes that record, and the preconditions
//! under which Cranelift neither panics nor fails a debug assertion. Which
//! machine code Cranelift makes of the instructions is not stated.
use vstd::prelude::*;

use cranelift_codegen::ir::condcodes::IntCC;
use cranelift_codegen::ir::{types, AbiParam, InstBuilder, UserFuncName, Value};
use cranelift_codegen::isa;
use cranelift_codegen::isa::TargetFrontendConfig;
use cranelift_codegen::settings;
use cranelift_codegen::settings::{Configurable, SetError};
use cranelift_codegen::Context;
use cranelift_frontend::{FunctionBuilder, FunctionBuilderContext};
use cranelift_module::{default_libcall_names, FuncId, Linkage, Module, ModuleError};
use cranelift_object::object::BinaryFormat;
use cranelift_object::{ObjectBuilder, ObjectModule, ObjectProduct};
use target_lexicon::Triple;

use crate::error::{CompileError, ErrorView};
use crate::ir::{self, Arith, Comparison, Inst};

verus! {

#[verifier::external_type_specification]
#[verifier::external_body]
pub struct ExTriple(Triple);

#[verifier::external_type_specification]
#[verifier::external_body]
pub struct ExSettingsBuilder(settings::Builder);

#[verifier::external_type_specification]
#[verifier::external_body]
pub struct ExSetError(SetError);

#[verifier::external_type_specification]
#[verifier::external_body]
pub struct ExObjectModule(ObjectModule);

#[verifier::external_type_specification]
#[verifier::external_body]
pub struct ExObjectProduct(ObjectProduct);

#[verifier::external_type_specification]
#[verifier::external_body]
pub struct ExModuleError(ModuleError);

#[verifier::external_type_specification]
#[verifier::external_body]
pub struct ExObjectWriteError(cranelift_object::object::write::Error);

#[verifier::external_type_specification]
#[verifier::external_body]
pub struct ExContext(Context);

#[verifier::external_type_specification]
#[verifier::external_body]
pub struct ExFunctionBuilderContext(FunctionBuilderContext);

#[verifier::external_type_specification]
#[verifier::external_body]
pub struct ExFunctionBuilder<'a>(FunctionBuilder<'a>);

#[verifier::external_type_specification]
#[verifier::external_body]
pub struct ExValue(Value);

#[verifier::external_type_specification]
#[verifier::external_body]
pub struct ExFuncId(FuncId);

#[verifier::external_type_specification]
#[verifier::external_body]
pub struct ExTargetFrontendConfig(TargetFrontendConfig);

/// Cranelift's shared settings under construction, with the record of the
/// settings set so far: name to the text of the value given.
pub struct Settings {
    builder: settings::Builder,
    values: Ghost<Map<Seq<char>, Seq<char>>>,
}

impl Settings {
    /// The settings set so far, by name, with the text of their values.
    pub closed spec fn values(&self) -> Map<Seq<char>, Seq<char>> {
        self.values@
    }
}

/// An object module under construction, with the record of what it was made
/// with and what has been declared and defined in it.
pub struct ObjectFile {
    module: ObjectModule,
    name: Ghost<Seq<char>>,
    settings: Ghost<Map<Seq<char>, Seq<char>>>,
    declared: Ghost<Map<FuncId, Seq<char>>>,
    defined: Ghost<Map<FuncId, (nat, Seq<Inst>)>>,
}

impl ObjectFile {
    /// The name the object module was made with.
    pub closed spec fn name(&self) -> Seq<char> {
        self.name@
    }

    /// The shared settings the target was made with (see `Settings::values`).
    pub closed spec fn settings(&self) -> Map<Seq<char>, Seq<char>> {
        self.settings@
    }

    /// The functions declared for export, with their symbol names.
    pub closed spec fn declared(&self) -> Map<FuncId, Seq<char>> {
        self.declared@
    }

    /// The functions defined: the number of `i32` values each returns, and
    /// the instructions of its one block, which returns the value of the
    /// last of them.
    pub closed spec fn defined(&self) -> Map<FuncId, (nat, Seq<Inst>)> {
        self.defined@
    }
}

/// A Cranelift function context, with the slot for the function builder's
/// context and the record of what the function holds.
pub struct FunctionDraft {
    ctx: Context,
    slot: Option<FunctionBuilderContext>,
    results: Ghost<nat>,
    body: Ghost<Option<Seq<Inst>>>,
}

impl FunctionDraft {
    /// The number of `i32` values in the function's signature.
    pub closed spec fn results(&self) -> nat {
        self.results@
    }

    /// Whether a body has been started in this context.
    pub closed spec fn started(&self) -> bool {
        self.slot is Some
    }

    /// The instructions of the function's finished block, which returns the
    /// value of the last of them.
    pub closed spec fn body(&self) -> Option<Seq<Inst>> {
        self.body@
    }
}

/// A function body being built in one block of the function of a
/// `FunctionDraft`: the builder, the values Cranelift made so far (one per
/// instruction, in order), the record of the instructions appended, and the
/// draft's record of its finished body, which finishing the body sets.
pub struct Body<'a> {
    builder: FunctionBuilder<'a>,
    values: Vec<Value>,
    made: Ghost<Seq<Value>>,
    insts: Ghost<Seq<Inst>>,
    record: &'a mut Ghost<Option<Seq<Inst>>>,
}

impl<'a> Body<'a> {
    /// The instructions appended so far, in order.
    pub closed spec fn insts(&self) -> Seq<Inst> {
        self.insts@
    }

    /// The number of values made so far.
    pub closed spec fn len(&self) -> nat {
        self.made@.len()
    }

    /// The table of values holds exactly the values Cranelift made, in order.
    pub closed spec fn wf(&self) -> bool {
        self.values@ == self.made@
    }

    /// `self` is `before` with one more instruction `inst`, whose value
    /// Cranelift made as `v`; the table of values is not yet extended.
    pub closed spec fn appends(&self, before: Body<'a>, inst: Inst, v: Value) -> bool {
        &&& self.insts@ == before.insts@.push(inst)
        &&& self.made@ == before.made@.push(v)
        &&& self.values@ == before.values@
        &&& self.record == before.record
    }

    /// Every operand of `inst`, appended next, names a value made before.
    pub open spec fn admits(&self, inst: Inst) -> bool {
        ir::operands_below(inst, self.len() as int)
    }

    /// The number of values made so far.
    pub fn size(&self) -> (n: usize)
        requires
            self.wf(),
        ensures
            n == self.len(),
    {
        self.values.len()
    }
}

/// `target_lexicon::Triple::host`: the target triple of the machine this
/// runs on. Nothing is stated of it (it depends on the machine).
#[verifier::external_body]
pub(crate) fn host_triple() -> Triple {
    Triple::host()
}

/// `cranelift_codegen::settings::builder`: the default shared settings, with
/// none set yet.
#[verifier::external_body]
pub(crate) fn settings_builder() -> (s: Settings)
    ensures
        s.values().is_empty(),
{
    Settings { builder: settings::builder(), values: Ghost(Map::empty()) }
}

/// `Configurable::set` on the shared settings: sets setting `name` to
/// `value`, or says why it cannot (an unknown name, or a value of the wrong
/// kind), and then changes nothing. `is_pic` is a boolean setting, which
/// `true` sets; of other names and values it is not stated which happens.
#[verifier::external_body]
pub(crate) fn set_setting(s: &mut Settings, name: &str, value: &str) -> (r: Result<(), SetError>)
    ensures
        name@ == "is_pic"@ && value@ == "true"@ ==> r is Ok,
        r is Ok ==> final(s).values() == old(s).values().insert(name@, value@),
        r is Err ==> final(s).values() == old(s).values(),
{
    s.builder.set(name, value)
}

/// Makes the object module: `cranelift_codegen::settings::Flags::new` on the
/// shared settings, `cranelift_codegen::isa::lookup` for `triple`, then
/// `IsaBuilder::finish` with those flags, `cranelift_object::ObjectBuilder::new`
/// with the name `name` and `cranelift_module::default_libcall_names`, and
/// `cranelift_object::ObjectModule::new`. An error of any of them becomes
/// `CompileError::Backend` with the error's text. The calls stand together
/// because the target ISA they pass along (`Arc<dyn TargetIsa>`) cannot be
/// named in verified code. Whether it succeeds is not stated: the lookup
/// depends on which targets Cranelift was built with and on the machine.
#[verifier::external_body]
pub(crate) fn object_file(triple: Triple, s: Settings, name: &str) -> (r: Result<
    ObjectFile,
    CompileError,
>)
    ensures
        r matches Ok(o) ==> o.name() == name@ && o.settings() == s.values()
            && o.declared().is_empty() && o.defined().is_empty(),
        r matches Err(e) ==> e is Backend,
{
    let flags = settings::Flags::new(s.builder);
    let isa = isa::lookup(triple).map_err(|e| CompileError::Backend { message: e.to_string() })?;
    let isa = isa.finish(flags).map_err(|e| CompileError::Backend { message: e.to_string() })?;
    let builder = ObjectBuilder::new(isa, name, default_libcall_names()).map_err(
        |e| CompileError::Backend { message: e.to_string() },
    )?;
    let module = ObjectModule::new(builder);
    Ok(ObjectFile { module, name: Ghost(name@), settings: s.values, declared: Ghost(Map::empty()), defined: Ghost(Map::empty()) })
}

/// `Module::make_context`: a fresh context for compiling one function, whose
/// signature has no result and whose function has no body yet.
#[verifier::external_body]
pub(crate) fn make_context(o: &ObjectFile) -> (d: FunctionDraft)
    ensures
        d.results() == 0,
        !d.started(),
        d.body() is None,
{
    FunctionDraft { ctx: o.module.make_context(), slot: None, results: Ghost(0), body: Ghost(None) }
}

/// Adds one `i32` value to the results of the function's signature
/// (`AbiParam::new(types::I32)` pushed on `signature.returns`).
#[verifier::external_body]
pub(crate) fn add_i32_return(d: &mut FunctionDraft)
    ensures
        final(d).results() == old(d).results() + 1,
        final(d).started() == old(d).started(),
        final(d).body() == old(d).body(),
{
    d.ctx.func.signature.returns.push(AbiParam::new(types::I32));
}

/// Names the function `UserFuncName::user(namespace, index)`.
#[verifier::external_body]
pub(crate) fn set_user_name(d: &mut FunctionDraft, namespace: u32, index: u32)
    ensures
        final(d).results() == old(d).results(),
        final(d).started() == old(d).started(),
        final(d).body() == old(d).body(),
{
    d.ctx.func.name = UserFuncName::user(namespace, index);
}

/// `FunctionBuilder::new` on the function of `d`, with a builder context made
/// by `FunctionBuilderContext::new` and kept in `d`, then `create_block`,
/// `switch_to_block` and `seal_block` for its entry block. The body holds on
/// to `d`'s record of its finished body: what `finish_body` sets there is what
/// `d` records when the body is let go. Cranelift asks for
/// a builder context with no function in progress (a debug assertion); a new
/// one is always such. The builder is handed out positioned in the entry
/// block, so that the instruction functions below never insert where no
/// block is current, which panics.
#[verifier::external_body]
fn start_body(d: &mut FunctionDraft) -> (b: Body<'_>)
    requires
        !old(d).started(),
    ensures
        b.insts() == Seq::<Inst>::empty(),
        b.len() == 0,
        b.wf(),
        final(d).body() == final(b.record)@,
        final(d).started(),
        final(d).results() == old(d).results(),
{
    let fctx = d.slot.insert(FunctionBuilderContext::new());
    let mut builder = FunctionBuilder::new(&mut d.ctx.func, fctx);
    let entry = builder.create_block();
    builder.switch_to_block(entry);
    builder.seal_block(entry);
    let insts = Ghost(Seq::empty());
    Body { builder, values: Vec::new(), made: Ghost(Seq::empty()), insts, record: &mut d.body }
}

/// `Module::target_config`: what the front end needs to know of the target.
#[verifier::external_body]
pub(crate) fn target_config(o: &ObjectFile) -> TargetFrontendConfig {
    o.module.target_config()
}

/// Emits `return` of the value of instruction `last`, the last one
/// (`ins().return_`), then `FunctionBuilder::finalize`; the draft the body
/// belongs to then records the body's instructions as its finished body.
/// They stand together so that the builder is finalized only with its block
/// filled, which Cranelift checks with a debug assertion.
#[verifier::external_body]
fn finish_body(b: Body<'_>, last: usize, config: TargetFrontendConfig)
    requires
        b.wf(),
        last + 1 == b.len(),
    ensures
        final(b.record)@ == Some(b.insts()),
{
    let mut builder = b.builder;
    builder.ins().return_(&[b.values[last]]);
    builder.finalize(config);
    *b.record = Ghost(Some(b.insts@));
}

/// `Module::declare_function` with `Linkage::Export` and the signature of the
/// function of `d`. On success the function is declared under `name`; on
/// failure (a name Cranelift refuses, or one declared otherwise before)
/// nothing is declared.
#[verifier::external_body]
pub(crate) fn declare_exported_function(o: &mut ObjectFile, name: &str, d: &FunctionDraft) -> (r:
    Result<FuncId, ModuleError>)
    ensures
        r matches Ok(id) ==> final(o).declared() == old(o).declared().insert(id, name@),
        r is Err ==> final(o).declared() == old(o).declared(),
        final(o).defined() == old(o).defined(),
        final(o).name() == old(o).name(),
        final(o).settings() == old(o).settings(),
{
    o.module.declare_function(name, Linkage::Export, &d.ctx.func.signature)
}

/// `Module::define_function`: compiles the function of `d` into the module
/// under `id`, which must have been declared (else Cranelift panics). On
/// success `id` is defined as what `d` held; on failure (Cranelift could not
/// compile it, or `id` was defined before) nothing is defined. Compiling
/// rewrites the function of `d`, so nothing is stated of what it holds after.
#[verifier::external_body]
pub(crate) fn define_function(o: &mut ObjectFile, id: FuncId, d: &mut FunctionDraft) -> (r: Result<
    (),
    ModuleError,
>)
    requires
        old(o).declared().contains_key(id),
        old(d).body() is Some,
    ensures
        r is Ok ==> final(o).defined() == old(o).defined().insert(
            id,
            (old(d).results(), old(d).body()->0),
        ),
        r is Err ==> final(o).defined() == old(o).defined(),
        final(o).declared() == old(o).declared(),
        final(o).name() == old(o).name(),
        final(o).settings() == old(o).settings(),
        final(d).started() == old(d).started(),
{
    o.module.define_function(id, &mut d.ctx)
}

/// `Module::clear_context`: empties the function of `d`, signature included.
#[verifier::external_body]
pub(crate) fn clear_context(o: &ObjectFile, d: &mut FunctionDraft)
    ensures
        final(d).results() == 0,
        final(d).body() is None,
        final(d).started() == old(d).started(),
{
    o.module.clear_context(&mut d.ctx)
}

/// A finished object module, ready to be written, and whether its binary
/// format is ELF.
pub struct Product {
    product: ObjectProduct,
    elf: bool,
}

/// The bytes begin with the ELF magic number: `0x7f`, `E`, `L`, `F`.
pub open spec fn elf_header(v: Seq<u8>) -> bool {
    v.len() >= 4 && v.subrange(0, 4) == seq![0x7fu8, 0x45u8, 0x4cu8, 0x46u8]
}

/// `ObjectModule::finish`, and whether the product's format is ELF
/// (`Object::format`). Cranelift asserts (in debug builds) that every
/// function declared for export has been defined.
#[verifier::external_body]
fn finish_module(o: ObjectFile) -> Product
    requires
        o.declared().dom().subset_of(o.defined().dom()),
{
    let product = o.module.finish();
    let elf = match product.object.format() {
        BinaryFormat::Elf => true,
        _ => false,
    };
    Product { product, elf }
}

/// `ObjectProduct::emit` (`Object::write`): the bytes of the object file, or
/// why they could not be written. `object` is built here with its ELF writer
/// only (the features `cranelift-object` asks for), and for another format
/// `Object::emit` panics (`unimplemented!`); hence the product must be ELF.
/// The ELF writer starts with the file header, so what comes back begins
/// with the ELF magic number; nothing more is stated of the bytes.
#[verifier::external_body]
fn emit_product(p: Product) -> (r: Result<Vec<u8>, cranelift_object::object::write::Error>)
    requires
        p.elf,
    ensures
        r matches Ok(v) ==> elf_header(v@),
{
    p.product.emit()
}

/// Finishes the object module and writes it out: an ELF object file, or the
/// error `failed to emit object file` where the writer fails or the target's
/// format is not ELF (the only one the writer here supports).
pub fn write_object(o: ObjectFile) -> (r: Result<Vec<u8>, CompileError>)
    requires
        o.declared().dom().subset_of(o.defined().dom()),
    ensures
        r matches Ok(v) ==> elf_header(v@),
        r matches Err(e) ==> e@ == (ErrorView::Backend { message: "failed to emit object file"@ }),
{
    let p = finish_module(o);
    if !p.elf {
        return Err(CompileError::Backend { message: "failed to emit object file".to_string() });
    }
    match emit_product(p) {
        Ok(bytes) => Ok(bytes),
        Err(_) => Err(CompileError::Backend { message: "failed to emit object file".to_string() }),
    }
}

/// `ins().iconst(types::I32, v)`.
#[verifier::external_body]
fn iconst_i32(b: &mut Body<'_>, k: i64) -> (v: Value)
    requires
        old(b).wf(),
    ensures
        final(b).appends(*old(b), Inst::Iconst(k), v),
{
    b.builder.ins().iconst(types::I32, k)
}

/// `ins().ineg(x)` on the value of instruction `x`.
#[verifier::external_body]
fn ineg(b: &mut Body<'_>, x: usize) -> (v: Value)
    requires
        old(b).wf(),
        x < old(b).len(),
    ensures
        final(b).appends(*old(b), Inst::Ineg(ir::back(old(b).len(), x)), v),
{
    b.builder.ins().ineg(b.values[x])
}

/// `ins().bnot(x)` on the value of instruction `x`.
#[verifier::external_body]
fn bnot(b: &mut Body<'_>, x: usize) -> (v: Value)
    requires
        old(b).wf(),
        x < old(b).len(),
    ensures
        final(b).appends(*old(b), Inst::Bnot(ir::back(old(b).len(), x)), v),
{
    b.builder.ins().bnot(b.values[x])
}

/// `ins().uextend(types::I32, x)` on the value of instruction `x`.
#[verifier::external_body]
fn uextend_i32(b: &mut Body<'_>, x: usize) -> (v: Value)
    requires
        old(b).wf(),
        x < old(b).len(),
    ensures
        final(b).appends(*old(b), Inst::Uextend(ir::back(old(b).len(), x)), v),
{
    b.builder.ins().uextend(types::I32, b.values[x])
}

/// `ins().icmp_imm_s(cc, x, imm)` (the comparison with a sign-extended
/// immediate) on the value of instruction `x`, with the `IntCC` variant of
/// the same name as `cc`.
#[verifier::external_body]
fn icmp_imm_s(b: &mut Body<'_>, cc: Comparison, x: usize, imm: i64) -> (v: Value)
    requires
        old(b).wf(),
        x < old(b).len(),
    ensures
        final(b).appends(*old(b), Inst::CompareImm(cc, ir::back(old(b).len(), x), imm), v),
{
    let cc = match cc {
        Comparison::Equal => IntCC::Equal,
        Comparison::NotEqual => IntCC::NotEqual,
        Comparison::SignedLessThan => IntCC::SignedLessThan,
        Comparison::SignedLessThanOrEqual => IntCC::SignedLessThanOrEqual,
        Comparison::SignedGreaterThan => IntCC::SignedGreaterThan,
        Comparison::SignedGreaterThanOrEqual => IntCC::SignedGreaterThanOrEqual,
    };
    b.builder.ins().icmp_imm_s(cc, b.values[x], imm)
}

/// `ins().icmp(cc, l, r)` on the values of instructions `l` and `r`, with
/// the `IntCC` variant of the same name as `cc`.
#[verifier::external_body]
fn icmp(b: &mut Body<'_>, cc: Comparison, l: usize, r: usize) -> (v: Value)
    requires
        old(b).wf(),
        l < old(b).len(),
        r < old(b).len(),
    ensures
        final(b).appends(*old(b), Inst::Compare(cc, ir::back(old(b).len(), l), ir::back(old(b).len(), r)), v),
{
    let cc = match cc {
        Comparison::Equal => IntCC::Equal,
        Comparison::NotEqual => IntCC::NotEqual,
        Comparison::SignedLessThan => IntCC::SignedLessThan,
        Comparison::SignedLessThanOrEqual => IntCC::SignedLessThanOrEqual,
        Comparison::SignedGreaterThan => IntCC::SignedGreaterThan,
        Comparison::SignedGreaterThanOrEqual => IntCC::SignedGreaterThanOrEqual,
    };
    b.builder.ins().icmp(cc, b.values[l], b.values[r])
}

/// `ins().iadd(l, r)` on the values of instructions `l` and `r`.
#[verifier::external_body]
fn iadd(b: &mut Body<'_>, l: usize, r: usize) -> (v: Value)
    requires
        old(b).wf(),
        l < old(b).len(),
        r < old(b).len(),
    ensures
        final(b).appends(*old(b), Inst::Binary(Arith::Add, ir::back(old(b).len(), l), ir::back(old(b).len(), r)), v),
{
    b.builder.ins().iadd(b.values[l], b.values[r])
}

/// `ins().isub(l, r)` on the values of instructions `l` and `r`.
#[verifier::external_body]
fn isub(b: &mut Body<'_>, l: usize, r: usize) -> (v: Value)
    requires
        old(b).wf(),
        l < old(b).len(),
        r < old(b).len(),
    ensures
        final(b).appends(*old(b), Inst::Binary(Arith::Sub, ir::back(old(b).len(), l), ir::back(old(b).len(), r)), v),
{
    b.builder.ins().isub(b.values[l], b.values[r])
}

/// `ins().imul(l, r)` on the values of instructions `l` and `r`.
#[verifier::external_body]
fn imul(b: &mut Body<'_>, l: usize, r: usize) -> (v: Value)
    requires
        old(b).wf(),
        l < old(b).len(),
        r < old(b).len(),
    ensures
        final(b).appends(*old(b), Inst::Binary(Arith::Mul, ir::back(old(b).len(), l), ir::back(old(b).len(), r)), v),
{
    b.builder.ins().imul(b.values[l], b.values[r])
}

/// `ins().sdiv(l, r)` on the values of instructions `l` and `r`.
#[verifier::external_body]
fn sdiv(b: &mut Body<'_>, l: usize, r: usize) -> (v: Value)
    requires
        old(b).wf(),
        l < old(b).len(),
        r < old(b).len(),
    ensures
        final(b).appends(*old(b), Inst::Binary(Arith::Div, ir::back(old(b).len(), l), ir::back(old(b).len(), r)), v),
{
    b.builder.ins().sdiv(b.values[l], b.values[r])
}

/// `ins().srem(l, r)` on the values of instructions `l` and `r`.
#[verifier::external_body]
fn srem(b: &mut Body<'_>, l: usize, r: usize) -> (v: Value)
    requires
        old(b).wf(),
        l < old(b).len(),
        r < old(b).len(),
    ensures
        final(b).appends(*old(b), Inst::Binary(Arith::Rem, ir::back(old(b).len(), l), ir::back(old(b).len(), r)), v),
{
    b.builder.ins().srem(b.values[l], b.values[r])
}

/// `ins().ishl(l, r)` on the values of instructions `l` and `r`.
#[verifier::external_body]
fn ishl(b: &mut Body<'_>, l: usize, r: usize) -> (v: Value)
    requires
        old(b).wf(),
        l < old(b).len(),
        r < old(b).len(),
    ensures
        final(b).appends(*old(b), Inst::Binary(Arith::Shl, ir::back(old(b).len(), l), ir::back(old(b).len(), r)), v),
{
    b.builder.ins().ishl(b.values[l], b.values[r])
}

/// `ins().sshr(l, r)` on the values of instructions `l` and `r`.
#[verifier::external_body]
fn sshr(b: &mut Body<'_>, l: usize, r: usize) -> (v: Value)
    requires
        old(b).wf(),
        l < old(b).len(),
        r < old(b).len(),
    ensures
        final(b).appends(*old(b), Inst::Binary(Arith::Shr, ir::back(old(b).len(), l), ir::back(old(b).len(), r)), v),
{
    b.builder.ins().sshr(b.values[l], b.values[r])
}

/// `ins().band(l, r)` on the values of instructions `l` and `r`.
#[verifier::external_body]
fn band(b: &mut Body<'_>, l: usize, r: usize) -> (v: Value)
    requires
        old(b).wf(),
        l < old(b).len(),
        r < old(b).len(),
    ensures
        final(b).appends(*old(b), Inst::Binary(Arith::And, ir::back(old(b).len(), l), ir::back(old(b).len(), r)), v),
{
    b.builder.ins().band(b.values[l], b.values[r])
}

/// `ins().bxor(l, r)` on the values of instructions `l` and `r`.
#[verifier::external_body]
fn bxor(b: &mut Body<'_>, l: usize, r: usize) -> (v: Value)
    requires
        old(b).wf(),
        l < old(b).len(),
        r < old(b).len(),
    ensures
        final(b).appends(*old(b), Inst::Binary(Arith::Xor, ir::back(old(b).len(), l), ir::back(old(b).len(), r)), v),
{
    b.builder.ins().bxor(b.values[l], b.values[r])
}

/// `ins().bor(l, r)` on the values of instructions `l` and `r`.
#[verifier::external_body]
fn bor(b: &mut Body<'_>, l: usize, r: usize) -> (v: Value)
    requires
        old(b).wf(),
        l < old(b).len(),
        r < old(b).len(),
    ensures
        final(b).appends(*old(b), Inst::Binary(Arith::Or, ir::back(old(b).len(), l), ir::back(old(b).len(), r)), v),
{
    b.builder.ins().bor(b.values[l], b.values[r])
}

/// Appends `inst`, whose operands name values already made, to the body.
fn emit_inst(b: &mut Body<'_>, inst: Inst)
    requires
        old(b).wf(),
        old(b).admits(inst),
    ensures
        final(b).wf(),
        final(b).insts() == old(b).insts().push(inst),
        final(b).len() == old(b).len() + 1,
        final(b).record == old(b).record,
{
    let n = b.size();
    let v = match inst {
        Inst::Iconst(k) => iconst_i32(b, k),
        Inst::Ineg(x) => ineg(b, n - x),
        Inst::Bnot(x) => bnot(b, n - x),
        Inst::CompareImm(cc, x, imm) => icmp_imm_s(b, cc, n - x, imm),
        Inst::Uextend(x) => uextend_i32(b, n - x),
        Inst::Binary(op, l, r) => match op {
            Arith::Add => iadd(b, n - l, n - r),
            Arith::Sub => isub(b, n - l, n - r),
            Arith::Mul => imul(b, n - l, n - r),
            Arith::Div => sdiv(b, n - l, n - r),
            Arith::Rem => srem(b, n - l, n - r),
            Arith::Shl => ishl(b, n - l, n - r),
            Arith::Shr => sshr(b, n - l, n - r),
            Arith::And => band(b, n - l, n - r),
            Arith::Xor => bxor(b, n - l, n - r),
            Arith::Or => bor(b, n - l, n - r),
        },
        Inst::Compare(cc, l, r) => icmp(b, cc, n - l, n - r),
    };
    b.values.push(v);
}

/// Appends `insts`, in order, to the body.
fn emit_insts(b: &mut Body<'_>, insts: &Vec<Inst>)
    requires
        old(b).wf(),
        ir::refers_back(insts@, old(b).len() as int),
    ensures
        final(b).wf(),
        final(b).insts() == old(b).insts() + insts@,
        final(b).len() == old(b).len() + insts@.len(),
        final(b).record == old(b).record,
{
    let ghost start = b.insts();
    let ghost base = b.len();
    let mut i: usize = 0;
    while i < insts.len()
        invariant
            i <= insts@.len(),
            b.wf(),
            b.insts() == start + insts@.subrange(0, i as int),
            b.len() == base + i,
            b.record == old(b).record,
            ir::refers_back(insts@, base as int),
        decreases insts@.len() - i,
    {
        assert(ir::operands_below(insts@[i as int], base + i));
        emit_inst(b, insts[i]);
        assert(insts@.subrange(0, i + 1) =~= insts@.subrange(0, i as int).push(insts@[i as int]));
        i = i + 1;
    }
    assert(insts@.subrange(0, insts@.len() as int) =~= insts@);
}

/// Builds the function of `d`: one block of the instructions `insts` that
/// returns the value of the last of them.
pub(crate) fn fill_body(d: &mut FunctionDraft, insts: &Vec<Inst>, config: TargetFrontendConfig)
    requires
        !old(d).started(),
        insts@.len() >= 1,
        ir::refers_back(insts@, 0),
    ensures
        final(d).started(),
        final(d).results() == old(d).results(),
        final(d).body() == Some(insts@),
{
    let mut b = start_body(d);
    emit_insts(&mut b, insts);
    let n = b.size();
    finish_body(b, n - 1, config);
}

} // verus!
