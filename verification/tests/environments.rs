use evscript::compiler::{compile, compile_function};
use evscript::diag::{Diagnostic, ErrorKind, Feature, Warning};
use evscript::envs::{
    collect_envs, compile_environment, define_func, process_stmt, Environment, EnvironmentTable,
    FuncKind,
};
use evscript::expr::{Expr, Op, OpRef};
use evscript::ident::{Ident, Interner};
use evscript::output::{emit, emit_env};
use evscript::parsing::{
    AliasParam, DefKind, DefParam, DefParamKind, Env, EnvStatement, EnvStatementKind, Include,
    RawAsm, Root, Script, ScriptStatement, ScriptStatementKind, SimpleStatement, Struct,
    StructMember, Typedef, VarType,
};
use evscript::types::{collect_types, Type};

fn def(name: Ident) -> EnvStatement {
    EnvStatement {
        span: (0, 0),
        kind: EnvStatementKind::Def { name, args: vec![], kind: DefKind::Simple },
    }
}

fn using(target: Ident) -> EnvStatement {
    EnvStatement { span: (1, 2), kind: EnvStatementKind::Use { target } }
}

fn pool(size: i64) -> EnvStatement {
    EnvStatement { span: (3, 4), kind: EnvStatementKind::Pool { size: Expr::number(size) } }
}

fn block(name: Ident, body: Vec<EnvStatement>) -> Env {
    Env { span: (10, 20), name, body }
}

fn names(idents: &mut Interner, texts: &[&str]) -> Vec<Ident> {
    texts.iter().map(|t| idents.intern(t).unwrap()).collect()
}

fn table_with(decls: &[&Env]) -> (EnvironmentTable, Vec<Warning>) {
    let mut table = EnvironmentTable::new();
    let mut warnings = Vec::new();
    for decl in decls {
        let env = compile_environment(decl, &table, &mut warnings).unwrap();
        table.insert(env).unwrap();
    }
    (table, warnings)
}

#[test]
fn simple_definitions_get_opcodes_in_order() {
    let mut idents = Interner::new();
    let n = names(&mut idents, &["A", "f", "g", "h"]);
    let a = block(n[0], vec![def(n[1]), def(n[2]), def(n[3])]);
    let mut warnings = Vec::new();
    let env = compile_environment(&a, &EnvironmentTable::new(), &mut warnings).unwrap();
    assert_eq!(env.opcode_id(n[1]), Ok(0));
    assert_eq!(env.opcode_id(n[2]), Ok(1));
    assert_eq!(env.opcode_id(n[3]), Ok(2));
    assert_eq!(env.len(), 3);
    assert_eq!(env.pool(), 0);
    assert!(warnings.is_empty());
}

#[test]
fn definition_after_use_gets_the_next_free_opcode() {
    let mut idents = Interner::new();
    let n = names(&mut idents, &["A", "f", "g", "h", "B", "extra"]);
    let a = block(n[0], vec![def(n[1]), def(n[2]), def(n[3])]);
    let (table, _) = table_with(&[&a]);
    let b = block(n[4], vec![using(n[0]), def(n[5])]);
    let mut warnings = Vec::new();
    let env = compile_environment(&b, &table, &mut warnings).unwrap();
    assert_eq!(env.opcode_id(n[1]), Ok(0));
    assert_eq!(env.opcode_id(n[2]), Ok(1));
    assert_eq!(env.opcode_id(n[3]), Ok(2));
    assert_eq!(env.opcode_id(n[5]), Ok(3));
    assert!(warnings.is_empty());
}

#[test]
fn merging_again_leaves_own_definitions_and_warns() {
    let mut idents = Interner::new();
    let n = names(&mut idents, &["A", "f", "g", "h", "B", "extra"]);
    let a = block(n[0], vec![def(n[1]), def(n[2]), def(n[3])]);
    let (table, _) = table_with(&[&a]);
    let b = block(n[4], vec![using(n[0]), def(n[5]), using(n[0])]);
    let mut warnings = Vec::new();
    let env = compile_environment(&b, &table, &mut warnings).unwrap();
    assert_eq!(env.opcode_id(n[5]), Ok(3));
    assert_eq!(env.opcode_id(n[1]), Ok(4));
    assert_eq!(env.opcode_id(n[2]), Ok(5));
    assert_eq!(env.opcode_id(n[3]), Ok(6));
    assert_eq!(env.len(), 4);
    assert_eq!(
        warnings,
        vec![
            Warning::DuplicateDefinition(n[1]),
            Warning::DuplicateDefinition(n[2]),
            Warning::DuplicateDefinition(n[3]),
        ]
    );
}

#[test]
fn use_after_definitions_moves_opcodes_up() {
    let mut idents = Interner::new();
    let n = names(&mut idents, &["A", "f", "g", "B", "own"]);
    let a = block(n[0], vec![def(n[1]), def(n[2])]);
    let (table, _) = table_with(&[&a]);
    let b = block(n[3], vec![def(n[4]), using(n[0])]);
    let mut warnings = Vec::new();
    let env = compile_environment(&b, &table, &mut warnings).unwrap();
    assert_eq!(env.opcode_id(n[4]), Ok(0));
    assert_eq!(env.opcode_id(n[1]), Ok(1));
    assert_eq!(env.opcode_id(n[2]), Ok(2));
}

fn many_defs(idents: &mut Interner, prefix: &str, count: usize) -> Vec<EnvStatement> {
    (0..count).map(|i| def(idents.intern(&format!("{}{}", prefix, i)).unwrap())).collect()
}

#[test]
fn environment_holds_256_opcodes() {
    let mut idents = Interner::new();
    let a = idents.intern("A").unwrap();
    let body = many_defs(&mut idents, "f", 256);
    let mut warnings = Vec::new();
    let env = compile_environment(&block(a, body), &EnvironmentTable::new(), &mut warnings).unwrap();
    assert_eq!(env.opcode_id(idents.get("f255").unwrap()), Ok(255));
}

#[test]
fn definition_257_hits_the_bytecode_limit() {
    let mut idents = Interner::new();
    let a = idents.intern("A").unwrap();
    let body = many_defs(&mut idents, "f", 257);
    let mut warnings = Vec::new();
    let res = compile_environment(&block(a, body), &EnvironmentTable::new(), &mut warnings);
    assert_eq!(
        res.err(),
        Some(Diagnostic { kind: ErrorKind::BytecodeLimit(a), span: Some((0, 0)) })
    );
}

#[test]
fn use_that_pushes_an_opcode_past_255_fails() {
    let mut idents = Interner::new();
    let a = idents.intern("A").unwrap();
    let b = idents.intern("B").unwrap();
    let a_block = block(a, many_defs(&mut idents, "f", 200));
    let (table, _) = table_with(&[&a_block]);
    let mut body = many_defs(&mut idents, "g", 56);
    body.push(using(a));
    let mut warnings = Vec::new();
    let fits = compile_environment(&block(b, body), &table, &mut warnings).unwrap();
    assert_eq!(fits.opcode_id(idents.get("f199").unwrap()), Ok(255));
    let mut body = many_defs(&mut idents, "g", 57);
    body.push(using(a));
    let res = compile_environment(&block(b, body), &table, &mut warnings);
    assert_eq!(
        res.err(),
        Some(Diagnostic { kind: ErrorKind::BytecodeLimit(b), span: Some((1, 2)) })
    );
}

#[test]
fn use_of_an_unknown_environment_fails() {
    let mut idents = Interner::new();
    let n = names(&mut idents, &["B", "A"]);
    let mut warnings = Vec::new();
    let res = compile_environment(&block(n[0], vec![using(n[1])]), &EnvironmentTable::new(), &mut warnings);
    assert_eq!(
        res.err(),
        Some(Diagnostic { kind: ErrorKind::UnknownEnvironment(n[1]), span: Some((1, 2)) })
    );
}

#[test]
fn pool_65534_succeeds_and_65535_fails() {
    let mut idents = Interner::new();
    let a = idents.intern("A").unwrap();
    let mut warnings = Vec::new();
    let env = compile_environment(&block(a, vec![pool(65534)]), &EnvironmentTable::new(), &mut warnings).unwrap();
    assert_eq!(env.pool(), 65534);
    let res = compile_environment(&block(a, vec![pool(65535)]), &EnvironmentTable::new(), &mut warnings);
    assert_eq!(
        res.err(),
        Some(Diagnostic { kind: ErrorKind::PoolTooLarge(65535), span: Some((3, 4)) })
    );
}

#[test]
fn pool_zero_is_allowed_and_negative_is_not() {
    let mut idents = Interner::new();
    let a = idents.intern("A").unwrap();
    let mut warnings = Vec::new();
    let env = compile_environment(&block(a, vec![pool(0)]), &EnvironmentTable::new(), &mut warnings).unwrap();
    assert_eq!(env.pool(), 0);
    let res = compile_environment(&block(a, vec![pool(-1)]), &EnvironmentTable::new(), &mut warnings);
    assert_eq!(res.err().map(|d| d.kind), Some(ErrorKind::NegativePool));
}

#[test]
fn second_pool_statement_fails() {
    let mut idents = Interner::new();
    let a = idents.intern("A").unwrap();
    let mut warnings = Vec::new();
    let res = compile_environment(&block(a, vec![pool(0), pool(4)]), &EnvironmentTable::new(), &mut warnings);
    assert_eq!(res.err().map(|d| d.kind), Some(ErrorKind::DuplicatePool));
}

#[test]
fn pool_that_is_not_constant_fails() {
    let mut idents = Interner::new();
    let n = names(&mut idents, &["A", "x"]);
    let size = Expr::from_ops(vec![Op::Variable(n[1]), Op::Number(1), Op::Add(OpRef(0), OpRef(1))]).unwrap();
    let stmt = EnvStatement { span: (3, 4), kind: EnvStatementKind::Pool { size } };
    let mut warnings = Vec::new();
    let res = compile_environment(&block(n[0], vec![stmt]), &EnvironmentTable::new(), &mut warnings);
    assert_eq!(res.err().map(|d| d.kind), Some(ErrorKind::PoolNotConstant));
}

#[test]
fn redefinition_of_a_function_fails() {
    let mut idents = Interner::new();
    let n = names(&mut idents, &["A", "f"]);
    let mut warnings = Vec::new();
    let res = compile_environment(&block(n[0], vec![def(n[1]), def(n[1])]), &EnvironmentTable::new(), &mut warnings);
    assert_eq!(res.err().map(|d| d.kind), Some(ErrorKind::DuplicateFunction(n[1])));
}

#[test]
fn redefinition_of_a_used_function_fails() {
    let mut idents = Interner::new();
    let n = names(&mut idents, &["A", "f", "B"]);
    let a = block(n[0], vec![def(n[1])]);
    let (table, _) = table_with(&[&a]);
    let mut warnings = Vec::new();
    let res = compile_environment(&block(n[2], vec![using(n[0]), def(n[1])]), &table, &mut warnings);
    assert_eq!(res.err().map(|d| d.kind), Some(ErrorKind::DuplicateFunction(n[1])));
}

#[test]
fn definition_with_two_return_parameters_fails() {
    let mut idents = Interner::new();
    let n = names(&mut idents, &["A", "f", "u8"]);
    let ret = DefParam { name: n[2], kind: DefParamKind::Return };
    let stmt = EnvStatement {
        span: (0, 0),
        kind: EnvStatementKind::Def { name: n[1], args: vec![ret, ret], kind: DefKind::Simple },
    };
    let mut warnings = Vec::new();
    let res = compile_environment(&block(n[0], vec![stmt]), &EnvironmentTable::new(), &mut warnings);
    assert_eq!(res.err().map(|d| d.kind), Some(ErrorKind::MultipleReturns));
}

#[test]
fn opcode_that_is_taken_is_refused() {
    let mut idents = Interner::new();
    let n = names(&mut idents, &["A", "f", "g"]);
    let mut env = Environment::new(n[0]);
    define_func(&mut env, n[1], vec![], FuncKind::Normal { id: 7 }).unwrap();
    assert_eq!(
        define_func(&mut env, n[2], vec![], FuncKind::Normal { id: 7 }),
        Err(ErrorKind::DuplicateOpcode { name: n[2], id: 7, other: n[1] })
    );
    assert_eq!(env.len(), 1);
}

#[test]
fn aliases_and_macros_take_no_opcode() {
    let mut idents = Interner::new();
    let n = names(&mut idents, &["A", "f", "al", "mac", "g", "text"]);
    let alias = EnvStatement {
        span: (0, 0),
        kind: EnvStatementKind::Def {
            name: n[2],
            args: vec![],
            kind: DefKind::Alias { target: n[1], target_args: vec![AliasParam::Placeholder(1)] },
        },
    };
    let mac = EnvStatement {
        span: (0, 0),
        kind: EnvStatementKind::Def {
            name: n[3],
            args: vec![],
            kind: DefKind::Macro { target: n[5], varargs: true },
        },
    };
    let a = block(n[0], vec![def(n[1]), alias, mac, def(n[4])]);
    let mut warnings = Vec::new();
    let env = compile_environment(&a, &EnvironmentTable::new(), &mut warnings).unwrap();
    assert_eq!(env.opcode_id(n[1]), Ok(0));
    assert_eq!(env.opcode_id(n[2]), Ok(0));
    assert_eq!(env.opcode_id(n[4]), Ok(1));
    assert_eq!(env.opcode_id(n[3]), Err(ErrorKind::MacroTarget(n[3])));
    assert_eq!(env.resolve(n[2]), Ok(n[1]));
    assert_eq!(env.expand(n[2], &idents), Ok(String::from("A@f")));
}

#[test]
fn alias_chain_that_runs_in_a_circle_fails() {
    let mut idents = Interner::new();
    let n = names(&mut idents, &["A", "x", "y"]);
    let mut env = Environment::new(n[0]);
    define_func(&mut env, n[1], vec![], FuncKind::Alias { target: n[2], target_args: vec![] }).unwrap();
    define_func(&mut env, n[2], vec![], FuncKind::Alias { target: n[1], target_args: vec![] }).unwrap();
    assert!(matches!(env.resolve(n[1]), Err(ErrorKind::AliasCycle(_))));
}

#[test]
fn lookup_of_an_undefined_name_fails() {
    let mut idents = Interner::new();
    let n = names(&mut idents, &["A", "x"]);
    let env = Environment::new(n[0]);
    assert_eq!(env.lookup(n[1]).err(), Some(ErrorKind::UnknownDefinition(n[1])));
    assert_eq!(env.expand(n[1], &idents), Err(ErrorKind::UnknownDefinition(n[1])));
}

#[test]
fn standard_add_signed_and_unsigned_are_opcode_four() {
    let mut idents = Interner::new();
    let env = Environment::standard(&mut idents).unwrap();
    let unsigned = idents.get("add_u8").unwrap();
    let signed = idents.get("add_i8").unwrap();
    assert_eq!(env.opcode_id(unsigned), Ok(4));
    assert_eq!(env.opcode_id(signed), Ok(4));
    assert_eq!(env.resolve(signed), Ok(unsigned));
    assert_eq!(env.expand(signed, &idents), Ok(String::from("std@add_u8")));
}

#[test]
fn standard_environment_has_opcodes_0_to_21() {
    let mut idents = Interner::new();
    let env = Environment::standard(&mut idents).unwrap();
    let expected = [
        "return", "yield", "put_u8", "mov_u8", "add_u8", "sub_u8", "mul_u8", "div_u8", "mod_u8",
        "shl_u8", "shr_u8", "band_u8", "bxor_u8", "bor_u8", "equ_u8", "nequ_u8", "lt_u8",
        "gt_u8", "lte_u8", "gte_u8", "land_u8", "lor_u8",
    ];
    for (id, name) in expected.iter().enumerate() {
        assert_eq!(env.opcode_id(idents.get(name).unwrap()), Ok(id as u8));
        if id >= 2 {
            let signed = name.replace("_u8", "_i8");
            assert_eq!(env.opcode_id(idents.get(&signed).unwrap()), Ok(id as u8));
        }
    }
    assert_eq!(env.len(), 42);
    assert_eq!(env.opcodes_end(), 22);
    assert_eq!(idents.resolve(env.name()), Some("std"));
    assert_eq!(idents.len(), 43);
}

#[test]
fn collect_envs_rejects_a_second_environment_of_a_name() {
    let mut idents = Interner::new();
    let n = names(&mut idents, &["A", "f", "g"]);
    let roots = vec![
        Root::Env(block(n[0], vec![def(n[1])])),
        Root::Typedef(Typedef { name: n[1], target: n[2] }),
        Root::Env(block(n[0], vec![def(n[2])])),
    ];
    assert_eq!(
        collect_envs(&roots).err(),
        Some(Diagnostic { kind: ErrorKind::DuplicateEnvironment(n[0]), span: Some((10, 20)) })
    );
}

#[test]
fn collect_envs_keeps_declaration_order() {
    let mut idents = Interner::new();
    let n = names(&mut idents, &["A", "f", "B"]);
    let roots = vec![
        Root::Env(block(n[0], vec![def(n[1])])),
        Root::Env(block(n[2], vec![using(n[0]), using(n[0])])),
    ];
    let (table, warnings) = collect_envs(&roots).unwrap();
    assert_eq!(table.len(), 2);
    assert_eq!(table.get(0).name(), n[0]);
    assert_eq!(table.get(1).name(), n[2]);
    assert_eq!(warnings, vec![Warning::DuplicateDefinition(n[1])]);
    assert_eq!(table.lookup(n[2]).unwrap().opcode_id(n[1]), Ok(1));
}

#[test]
fn emit_writes_a_line_for_each_opcode() {
    let mut idents = Interner::new();
    let n = names(&mut idents, &["A", "f", "al", "g", "B"]);
    let alias = EnvStatement {
        span: (0, 0),
        kind: EnvStatementKind::Def {
            name: n[2],
            args: vec![],
            kind: DefKind::Alias { target: n[1], target_args: vec![] },
        },
    };
    let a = block(n[0], vec![def(n[1]), alias, def(n[3]), pool(16)]);
    let b = block(n[4], vec![using(n[0])]);
    let (table, _) = table_with(&[&a, &b]);
    assert_eq!(
        emit(&idents, &table, false),
        Ok(String::from("def A@f equ 0\ndef A@g equ 1\ndef B@f equ 0\ndef B@g equ 1\n"))
    );
    assert_eq!(
        emit_env(table.get(0), &idents, true),
        Ok(String::from("; env A {\n;     pool = 16\ndef A@f equ 0\ndef A@g equ 1\n; }\n"))
    );
}

#[test]
fn emit_fails_on_a_handle_of_another_interner() {
    let mut idents = Interner::new();
    let n = names(&mut idents, &["A", "f"]);
    let a = block(n[0], vec![def(n[1])]);
    let (table, _) = table_with(&[&a]);
    let other = Interner::new();
    assert_eq!(emit(&other, &table, false), Err(ErrorKind::UnknownIdent(n[0])));
}

fn statement(stmt: SimpleStatement) -> ScriptStatement {
    ScriptStatement { span: (30, 40), kind: ScriptStatementKind::SimpleStatement(stmt) }
}

#[test]
fn program_compiles_environment_and_function_in_order() {
    let mut idents = Interner::new();
    let n = names(&mut idents, &["game", "wait", "Main", "x", "u8", "std"]);
    let wait = EnvStatement {
        span: (0, 0),
        kind: EnvStatementKind::Def {
            name: n[1],
            args: vec![DefParam { name: n[4], kind: DefParamKind::Simple }],
            kind: DefKind::Simple,
        },
    };
    let roots = vec![
        Root::Env(block(n[0], vec![using(n[5]), wait])),
        Root::Script(Script {
            span: (50, 60),
            env: n[0],
            name: n[2],
            body: vec![
                statement(SimpleStatement::VarDecl {
                    name: n[3],
                    var_type: VarType { base_type: n[4], is_ptr: false },
                    init: Some(Expr::number(3)),
                }),
                statement(SimpleStatement::Expr(Expr::func_call(n[1], vec![Expr::variable(n[3])]))),
            ],
        }),
    ];
    let out = compile(&roots, &mut idents, false).unwrap();
    let mut expected = String::new();
    let std_names = [
        "return", "yield", "put_u8", "mov_u8", "add_u8", "sub_u8", "mul_u8", "div_u8", "mod_u8",
        "shl_u8", "shr_u8", "band_u8", "bxor_u8", "bor_u8", "equ_u8", "nequ_u8", "lt_u8",
        "gt_u8", "lte_u8", "gte_u8", "land_u8", "lor_u8",
    ];
    for (id, name) in std_names.iter().enumerate() {
        expected.push_str(&format!("def game@{} equ {}\n", name, id));
    }
    expected.push_str("def game@wait equ 22\n");
    expected.push_str("\nsection \"Main evscript fn\", romx\nMain::\n");
    expected.push_str("\tdb game@put_u8, 1, 3\n");
    expected.push_str("\tdb game@mov_u8, 0, 1\n");
    expected.push_str("\tdb game@wait, 0\n");
    expected.push_str("\tdb 0\n");
    assert_eq!(out.text, expected);
    assert!(out.warnings.is_empty());
}

#[test]
fn function_in_the_standard_environment_needs_no_declaration() {
    let mut idents = Interner::new();
    let n = names(&mut idents, &["std", "Main"]);
    let roots = vec![Root::Script(Script {
        span: (0, 1),
        env: n[0],
        name: n[1],
        body: vec![statement(SimpleStatement::Expr(Expr::number(1)))],
    })];
    let out = compile(&roots, &mut idents, false).unwrap();
    assert_eq!(
        out.text,
        "\nsection \"Main evscript fn\", romx\nMain::\n\tdb std@put_u8, 0, 1\n\tdb 0\n"
    );
}

#[test]
fn function_before_its_environment_fails() {
    let mut idents = Interner::new();
    let n = names(&mut idents, &["later", "Main", "f"]);
    let roots = vec![
        Root::Script(Script { span: (5, 6), env: n[0], name: n[1], body: vec![] }),
        Root::Env(block(n[0], vec![def(n[2])])),
    ];
    assert_eq!(
        compile(&roots, &mut idents, false).err(),
        Some(Diagnostic { kind: ErrorKind::MissingEnvironment(n[0]), span: Some((5, 6)) })
    );
}

#[test]
fn failing_statement_gives_its_span() {
    let mut idents = Interner::new();
    let n = names(&mut idents, &["std", "Main", "x"]);
    let roots = vec![Root::Script(Script {
        span: (0, 1),
        env: n[0],
        name: n[1],
        body: vec![statement(SimpleStatement::Assignment { name: n[2], value: Expr::number(1) })],
    })];
    assert_eq!(
        compile(&roots, &mut idents, false).err(),
        Some(Diagnostic { kind: ErrorKind::UnknownVariable(n[2]), span: Some((30, 40)) })
    );
}

#[test]
fn control_flow_is_not_supported() {
    let mut idents = Interner::new();
    let n = names(&mut idents, &["std", "Main"]);
    let kinds = vec![
        ScriptStatementKind::If { cond: Expr::number(1), body: vec![], else_stmt: vec![] },
        ScriptStatementKind::While { cond: Expr::number(1), body: vec![] },
        ScriptStatementKind::DoWhile { cond: Expr::number(1), body: vec![] },
        ScriptStatementKind::For {
            init: SimpleStatement::Expr(Expr::number(1)),
            cond: Expr::number(1),
            body: vec![],
            post_body: SimpleStatement::Expr(Expr::number(1)),
        },
        ScriptStatementKind::Repeat { cond: Expr::number(1), body: vec![] },
        ScriptStatementKind::Loop { body: vec![] },
    ];
    for kind in kinds {
        let roots = vec![Root::Script(Script {
            span: (0, 1),
            env: n[0],
            name: n[1],
            body: vec![ScriptStatement { span: (7, 8), kind }],
        })];
        assert_eq!(
            compile(&roots, &mut idents, false).err(),
            Some(Diagnostic {
                kind: ErrorKind::NotYetSupported(Feature::ControlFlow),
                span: Some((7, 8)),
            })
        );
    }
}

#[test]
fn assembly_and_include_at_top_level_are_not_supported() {
    let mut idents = Interner::new();
    let roots = vec![Root::RawAsm(RawAsm { contents: String::from("nop") })];
    assert_eq!(
        compile(&roots, &mut idents, false).err().map(|d| d.kind),
        Some(ErrorKind::NotYetSupported(Feature::RawAssembly))
    );
    let roots = vec![Root::Include(Include { path: String::from("a.evs") })];
    assert_eq!(
        compile(&roots, &mut idents, false).err().map(|d| d.kind),
        Some(ErrorKind::NotYetSupported(Feature::Include))
    );
}

#[test]
fn frame_overflow_in_a_function_is_out_of_space() {
    let mut idents = Interner::new();
    let n = names(&mut idents, &["std", "Main"]);
    let body = (0..257).map(|_| statement(SimpleStatement::Expr(Expr::number(0)))).collect();
    let roots = vec![Root::Script(Script { span: (0, 1), env: n[0], name: n[1], body })];
    assert_eq!(
        compile(&roots, &mut idents, false).err().map(|d| d.kind),
        Some(ErrorKind::OutOfVariableSpace)
    );
}

#[test]
fn typedef_names_a_primitive_type() {
    let mut idents = Interner::new();
    let n = names(&mut idents, &["byte", "u8", "word", "u16", "pair", "nothing", "loop_a", "loop_b"]);
    let roots = vec![
        Root::Typedef(Typedef { name: n[0], target: n[1] }),
        Root::Typedef(Typedef { name: n[2], target: n[0] }),
        Root::Struct(Struct {
            name: n[4],
            members: vec![StructMember { name: n[0], member_type: n[1] }],
        }),
        Root::Typedef(Typedef { name: n[6], target: n[7] }),
        Root::Typedef(Typedef { name: n[7], target: n[6] }),
    ];
    let types = collect_types(&roots, &mut idents).unwrap();
    assert_eq!(types.lookup(n[1]), Ok(Type { signed: false, size: 1 }));
    assert_eq!(types.lookup(n[3]), Ok(Type { signed: false, size: 2 }));
    assert_eq!(types.lookup(n[2]), Ok(Type { signed: false, size: 1 }));
    assert_eq!(types.lookup(n[4]), Err(ErrorKind::NotYetSupported(Feature::StructVariable)));
    assert_eq!(types.lookup(n[5]), Err(ErrorKind::UnknownType(n[5])));
    assert!(matches!(types.lookup(n[6]), Err(ErrorKind::TypeCycle(_))));
}

#[test]
fn redefinition_of_a_type_fails() {
    let mut idents = Interner::new();
    let n = names(&mut idents, &["byte", "u8"]);
    let roots = vec![
        Root::Typedef(Typedef { name: n[0], target: n[1] }),
        Root::Typedef(Typedef { name: n[0], target: n[1] }),
    ];
    assert_eq!(
        collect_types(&roots, &mut idents).err(),
        Some(Diagnostic { kind: ErrorKind::DuplicateType(n[0]), span: None })
    );
    let roots = vec![Root::Typedef(Typedef { name: n[1], target: n[0] })];
    assert_eq!(
        collect_types(&roots, &mut idents).err().map(|d| d.kind),
        Some(ErrorKind::DuplicateType(n[1]))
    );
}

#[test]
fn compile_function_returns_frame_and_text() {
    let mut idents = Interner::new();
    let std_env = Environment::standard(&mut idents).unwrap();
    let types = collect_types(&vec![], &mut idents).unwrap();
    let mut table = EnvironmentTable::new();
    table.insert(std_env).unwrap();
    let n = names(&mut idents, &["std", "Twice", "u16", "w"]);
    let script = Script {
        span: (0, 1),
        env: n[0],
        name: n[1],
        body: vec![statement(SimpleStatement::VarDecl {
            name: n[3],
            var_type: VarType { base_type: n[2], is_ptr: false },
            init: None,
        })],
    };
    let compiled = compile_function(&script, &table, &types, &idents).unwrap();
    assert_eq!(compiled.out, "\nsection \"Twice evscript fn\", romx\nTwice::\n\tdb 0\n");
    assert_eq!(compiled.vtable.used(), 2);
    assert_eq!(compiled.vtable.lookup(n[3]), Ok(0));
}

#[test]
fn explain_puts_comments_around_an_environment_and_usage_is_reported() {
    let mut idents = Interner::new();
    let n = names(&mut idents, &["game", "f", "Main", "std"]);
    let roots = vec![
        Root::Env(block(n[0], vec![def(n[1]), pool(8)])),
        Root::Script(Script {
            span: (0, 1),
            env: n[3],
            name: n[2],
            body: vec![
                statement(SimpleStatement::Expr(Expr::number(1))),
                statement(SimpleStatement::Expr(Expr::number(2))),
            ],
        }),
    ];
    let out = compile(&roots, &mut idents, true).unwrap();
    assert_eq!(
        out.text,
        "; env game {\n;     pool = 8\ndef game@f equ 0\n; }\n\nsection \"Main evscript fn\", romx\nMain::\n\tdb std@put_u8, 0, 1\n\tdb std@put_u8, 1, 2\n\tdb 0\n"
    );
    assert_eq!(out.usage.len(), 1);
    assert_eq!(out.usage[0].name, n[2]);
    assert_eq!(out.usage[0].bytes, 2);
}

#[test]
fn failing_statement_leaves_the_environment_as_it_was() {
    let mut idents = Interner::new();
    let n = names(&mut idents, &["A", "f", "B", "g", "missing"]);
    let a = block(n[0], many_defs(&mut idents, "f", 200));
    let (table, _) = table_with(&[&a]);
    let mut env = Environment::new(n[2]);
    let mut pool_size = None;
    let mut id: u16 = 0;
    let mut warnings = Vec::new();
    for stmt in many_defs(&mut idents, "g", 100) {
        process_stmt(&stmt, &table, &mut env, &mut pool_size, &mut id, &mut warnings).unwrap();
    }
    process_stmt(&pool(4), &table, &mut env, &mut pool_size, &mut id, &mut warnings).unwrap();
    let failing = vec![
        (pool(5), ErrorKind::DuplicatePool),
        (pool(-1), ErrorKind::NegativePool),
        (pool(65535), ErrorKind::PoolTooLarge(65535)),
        (using(n[4]), ErrorKind::UnknownEnvironment(n[4])),
        (using(n[0]), ErrorKind::BytecodeLimit(n[2])),
        (def(idents.get("g0").unwrap()), ErrorKind::DuplicateFunction(idents.get("g0").unwrap())),
    ];
    for (stmt, expected) in failing {
        assert_eq!(
            process_stmt(&stmt, &table, &mut env, &mut pool_size, &mut id, &mut warnings),
            Err(expected)
        );
        assert_eq!(env.len(), 100);
        assert_eq!(id, 100);
        assert_eq!(pool_size, Some(4));
        assert!(warnings.is_empty());
        assert_eq!(env.lookup(idents.get("f0").unwrap()).err(), Some(ErrorKind::UnknownDefinition(idents.get("f0").unwrap())));
    }
}
