//! The assembler text that declares the opcodes of environments.

use crate::diag::ErrorKind;
use crate::envs::{
    spec_qualified, EntryView, EnvView, Environment, EnvironmentTable, FuncKind, FuncKindView,
};
use crate::ident::{name_of, Ident, Interner};
use crate::text::{decimal, spec_decimal};
use vstd::prelude::*;
use vstd::string::*;

verus! {

/// The line that gives the opcode `id` to the definition `func` of the
/// environment `env`.
pub open spec fn spec_def_line(names: Seq<Seq<char>>, env: Ident, func: Ident, id: u8) -> Result<
    Seq<char>,
    ErrorKind,
> {
    match spec_qualified(names, env, func) {
        Err(e) => Err(e),
        Ok(qualified) => Ok("def "@ + qualified + " equ "@ + spec_decimal(id as nat) + "\n"@),
    }
}

/// The lines for the first `k` definitions: one for each that has an opcode
/// of its own, in the order of the definitions.
pub open spec fn spec_def_lines(names: Seq<Seq<char>>, env: Ident, entries: Seq<EntryView>, k: nat) -> Result<
    Seq<char>,
    ErrorKind,
>
    decreases k,
{
    if k == 0 || k > entries.len() {
        Ok(Seq::empty())
    } else {
        match spec_def_lines(names, env, entries, (k - 1) as nat) {
            Err(e) => Err(e),
            Ok(text) => match entries[k - 1].func.kind {
                FuncKindView::Normal { id } => match spec_def_line(
                    names,
                    env,
                    entries[k - 1].name,
                    id,
                ) {
                    Err(e) => Err(e),
                    Ok(line) => Ok(text + line),
                },
                _ => Ok(text),
            },
        }
    }
}

/// The comment in front of an environment's lines.
pub open spec fn spec_explain_head(name: Seq<char>, pool: u16) -> Seq<char> {
    "; env "@ + name + " {\n"@ + ";     pool = "@ + spec_decimal(pool as nat) + "\n"@
}

/// The text for an environment: a line for each definition with an opcode,
/// between comments where an explanation is asked for.
pub open spec fn spec_emit_env(names: Seq<Seq<char>>, env: EnvView, explain: bool) -> Result<
    Seq<char>,
    ErrorKind,
> {
    match name_of(names, env.name) {
        None => Err(ErrorKind::UnknownIdent(env.name)),
        Some(name) => match spec_def_lines(names, env.name, env.entries, env.entries.len()) {
            Err(e) => Err(e),
            Ok(lines) => if explain {
                Ok(spec_explain_head(name, env.pool) + lines + "; }\n"@)
            } else {
                Ok(lines)
            },
        },
    }
}

/// The text for the first `k` environments of a table.
pub open spec fn spec_emit(names: Seq<Seq<char>>, envs: Seq<EnvView>, k: nat, explain: bool) -> Result<
    Seq<char>,
    ErrorKind,
>
    decreases k,
{
    if k == 0 || k > envs.len() {
        Ok(Seq::empty())
    } else {
        match spec_emit(names, envs, (k - 1) as nat, explain) {
            Err(e) => Err(e),
            Ok(text) => match spec_emit_env(names, envs[k - 1], explain) {
                Err(e) => Err(e),
                Ok(more) => Ok(text + more),
            },
        }
    }
}

/// Once a line could not be written, the definitions behind it are not
/// looked at.
pub proof fn lemma_def_lines_fail(
    names: Seq<Seq<char>>,
    env: Ident,
    entries: Seq<EntryView>,
    k: nat,
    n: nat,
)
    requires
        k <= n <= entries.len(),
        spec_def_lines(names, env, entries, k) is Err,
    ensures
        spec_def_lines(names, env, entries, n) == spec_def_lines(names, env, entries, k),
    decreases n,
{
    if k < n {
        lemma_def_lines_fail(names, env, entries, k, (n - 1) as nat);
    }
}

/// Once an environment could not be written, those behind it are not looked
/// at.
pub proof fn lemma_emit_fail(names: Seq<Seq<char>>, envs: Seq<EnvView>, k: nat, n: nat, explain: bool)
    requires
        k <= n <= envs.len(),
        spec_emit(names, envs, k, explain) is Err,
    ensures
        spec_emit(names, envs, n, explain) == spec_emit(names, envs, k, explain),
    decreases n,
{
    if k < n {
        lemma_emit_fail(names, envs, k, (n - 1) as nat, explain);
    }
}

/// Writes the lines that declare an environment's opcodes. Fails where a
/// name is no handle of the interner.
#[verifier::loop_isolation(false)]
pub fn emit_env(env: &Environment, idents: &Interner, explain: bool) -> (res: Result<
    String,
    ErrorKind,
>)
    ensures
        match spec_emit_env(idents@, env@, explain) {
            Ok(text) => res is Ok && res.unwrap()@ == text,
            Err(e) => res == Err::<String, ErrorKind>(e),
        },
{
    let name = match idents.resolve(env.name()) {
        Some(name) => name,
        None => {
            return Err(ErrorKind::UnknownIdent(env.name()));
        },
    };
    let mut lines = String::new();
    let mut k: usize = 0;
    while k < env.len()
        invariant
            k <= env@.entries.len(),
            spec_def_lines(idents@, env@.name, env@.entries, k as nat) == Ok::<
                Seq<char>,
                ErrorKind,
            >(lines@),
        decreases env@.entries.len() - k,
    {
        match &env.func_at(k).kind {
            FuncKind::Normal { id } => {
                let qualified = match env.qualified(env.name_at(k), idents) {
                    Ok(text) => text,
                    Err(e) => {
                        proof {
                            lemma_def_lines_fail(
                                idents@,
                                env@.name,
                                env@.entries,
                                (k + 1) as nat,
                                env@.entries.len(),
                            );
                        }
                        return Err(e);
                    },
                };
                let number = decimal(*id as u64);
                let mut line = String::from_str("def ");
                line.append(qualified.as_str());
                line.append(" equ ");
                line.append(number.as_str());
                line.append("\n");
                lines.append(line.as_str());
            },
            _ => {},
        }
        k += 1;
    }
    if explain {
        let mut text = String::from_str("; env ");
        text.append(name);
        text.append(" {\n");
        text.append(";     pool = ");
        text.append(decimal(env.pool() as u64).as_str());
        text.append("\n");
        text.append(lines.as_str());
        text.append("; }\n");
        Ok(text)
    } else {
        Ok(lines)
    }
}

/// Writes the lines that declare the opcodes of every environment of a
/// table, in the order of the table.
#[verifier::loop_isolation(false)]
pub fn emit(idents: &Interner, envs: &EnvironmentTable, explain: bool) -> (res: Result<
    String,
    ErrorKind,
>)
    requires
        envs.wf(),
    ensures
        match spec_emit(idents@, envs@, envs@.len(), explain) {
            Ok(text) => res is Ok && res.unwrap()@ == text,
            Err(e) => res == Err::<String, ErrorKind>(e),
        },
{
    let mut text = String::new();
    let mut k: usize = 0;
    while k < envs.len()
        invariant
            k <= envs@.len(),
            spec_emit(idents@, envs@, k as nat, explain) == Ok::<Seq<char>, ErrorKind>(text@),
        decreases envs@.len() - k,
    {
        let more = match emit_env(envs.get(k), idents, explain) {
            Ok(more) => more,
            Err(e) => {
                proof {
                    lemma_emit_fail(idents@, envs@, (k + 1) as nat, envs@.len(), explain);
                }
                return Err(e);
            },
        };
        text.append(more.as_str());
        k += 1;
    }
    Ok(text)
}

} // verus!
