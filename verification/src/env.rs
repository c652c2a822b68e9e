//! The captured environment.
//!
//! [`Env::new`] reads the variables that steer a coverage build from a table
//! of variables, forces the build mode that instrumentation needs onto that
//! table, and keeps what it read. Two of the variables hold flags as text and
//! count as unset when they are empty; five are kept as the raw bytes they
//! hold, empty or not.

use crate::table::{applied_all, lookup, Change, EnvTable, VarError};
use crate::text::{lemma_empty_text, lemma_encode_concat, opt_bytes, opt_text};
use vstd::prelude::*;
use vstd::slice::slice_to_vec;
use vstd::string::*;
use vstd::utf8::*;

verus! {

/// A variable that was read as text and is set to bytes that are none.
#[derive(Debug, PartialEq, Eq)]
pub struct DecodeError {
    /// The name of the variable.
    pub name: String,
    /// The bytes it is set to, which are not valid UTF-8.
    pub value: Vec<u8>,
}

/// Whether a raw value reads as text: the variable is unset, or set to valid
/// UTF-8.
pub open spec fn is_text(raw: Option<Seq<u8>>) -> bool {
    match raw {
        Some(bytes) => valid_utf8(bytes),
        None => true,
    }
}

/// The text of a raw value, where an unset variable and an empty value both
/// give none.
pub open spec fn normalized(raw: Option<Seq<u8>>) -> Option<Seq<char>> {
    match raw {
        Some(bytes) => if bytes.len() == 0 {
            None
        } else {
            Some(decode_utf8(bytes))
        },
        None => None,
    }
}

/// The name to run a tool by: the path that overrides it, where there is
/// one, else the tool's usual name.
pub open spec fn or_default(path: Option<Seq<u8>>, usual: Seq<char>) -> Seq<u8> {
    match path {
        Some(bytes) => bytes,
        None => encode_utf8(usual),
    }
}

/// The name assumed for the running executable where its path cannot be
/// found: `cargo-llvm-cov`, then the suffix that executables have on the
/// platform.
pub open spec fn fallback_exe(exe_suffix: Seq<char>) -> Seq<u8> {
    encode_utf8("cargo-llvm-cov"@) + encode_utf8(exe_suffix)
}

/// The table after the changes that a coverage build needs: the two legacy
/// flag variables are unset, and incremental compilation is switched off.
pub open spec fn forced(vars: Map<Seq<char>, Seq<u8>>) -> Map<Seq<char>, Seq<u8>> {
    vars.remove("LLVM_COV_FLAGS"@).remove("LLVM_PROFDATA_FLAGS"@).insert(
        "CARGO_INCREMENTAL"@,
        encode_utf8("0"@),
    )
}

/// The first of the two flag variables that is set to bytes that are not
/// text, if there is one.
pub open spec fn undecodable(vars: Map<Seq<char>, Seq<u8>>) -> Option<Seq<char>> {
    if !is_text(lookup(vars, "CARGO_LLVM_COV_FLAGS"@)) {
        Some("CARGO_LLVM_COV_FLAGS"@)
    } else if !is_text(lookup(vars, "CARGO_LLVM_PROFDATA_FLAGS"@)) {
        Some("CARGO_LLVM_PROFDATA_FLAGS"@)
    } else {
        None
    }
}

/// What an [`Env`] holds, as mathematical values.
pub struct EnvView {
    pub cargo_llvm_cov_flags: Option<Seq<char>>,
    pub cargo_llvm_profdata_flags: Option<Seq<char>>,
    pub rustflags: Option<Seq<u8>>,
    pub rustdocflags: Option<Seq<u8>>,
    pub rustc: Option<Seq<u8>>,
    pub browser: Option<Seq<u8>>,
    pub cargo: Option<Seq<u8>>,
    pub current_exe: Seq<u8>,
}

impl EnvView {
    /// The name to run the compiler by.
    pub open spec fn rustc(self) -> Seq<u8> {
        or_default(self.rustc, "rustc"@)
    }

    /// The name to run the build tool by.
    pub open spec fn cargo(self) -> Seq<u8> {
        or_default(self.cargo, "cargo"@)
    }
}

/// What is captured from the variables `vars`, given the path of the running
/// executable, where it could be found, and the platform's suffix for
/// executables.
pub open spec fn captured(
    vars: Map<Seq<char>, Seq<u8>>,
    current_exe: Option<Seq<u8>>,
    exe_suffix: Seq<char>,
) -> EnvView {
    EnvView {
        cargo_llvm_cov_flags: normalized(lookup(vars, "CARGO_LLVM_COV_FLAGS"@)),
        cargo_llvm_profdata_flags: normalized(lookup(vars, "CARGO_LLVM_PROFDATA_FLAGS"@)),
        rustflags: lookup(vars, "RUSTFLAGS"@),
        rustdocflags: lookup(vars, "RUSTDOCFLAGS"@),
        rustc: lookup(vars, "RUSTC"@),
        browser: lookup(vars, "BROWSER"@),
        cargo: lookup(vars, "CARGO"@),
        current_exe: match current_exe {
            Some(path) => path,
            None => fallback_exe(exe_suffix),
        },
    }
}

/// The environment variables that a coverage build is steered by, as they
/// were when the snapshot was taken.
#[derive(Debug)]
pub struct Env {
    /// `CARGO_LLVM_COV_FLAGS`: additional flags to pass to llvm-cov, separated
    /// by spaces.
    pub cargo_llvm_cov_flags: Option<String>,
    /// `CARGO_LLVM_PROFDATA_FLAGS`: additional flags to pass to llvm-profdata,
    /// separated by spaces.
    pub cargo_llvm_profdata_flags: Option<String>,
    /// `RUSTFLAGS`, as it was set.
    pub rustflags: Option<Vec<u8>>,
    /// `RUSTDOCFLAGS`, as it was set.
    pub rustdocflags: Option<Vec<u8>>,
    /// `RUSTC`, as it was set.
    pub rustc: Option<Vec<u8>>,
    /// `BROWSER`, as it was set.
    pub browser: Option<Vec<u8>>,
    /// `CARGO`, as it was set.
    pub cargo: Option<Vec<u8>>,
    /// The path of the running executable.
    pub current_exe: Vec<u8>,
}

impl View for Env {
    type V = EnvView;

    open spec fn view(&self) -> EnvView {
        EnvView {
            cargo_llvm_cov_flags: opt_text(self.cargo_llvm_cov_flags),
            cargo_llvm_profdata_flags: opt_text(self.cargo_llvm_profdata_flags),
            rustflags: opt_bytes(self.rustflags),
            rustdocflags: opt_bytes(self.rustdocflags),
            rustc: opt_bytes(self.rustc),
            browser: opt_bytes(self.browser),
            cargo: opt_bytes(self.cargo),
            current_exe: self.current_exe@,
        }
    }
}

/// Reads the variable `key` as text, taking an empty value for an unset
/// variable.
///
/// Fails exactly when the variable is set to bytes that are not valid UTF-8,
/// and then names the variable and hands back the bytes.
pub fn ver(vars: &EnvTable, key: &str) -> (read: Result<Option<String>, DecodeError>)
    ensures
        match read {
            Ok(text) => {
                &&& is_text(lookup(vars@, key@))
                &&& opt_text(text) == normalized(lookup(vars@, key@))
            },
            Err(e) => {
                &&& !is_text(lookup(vars@, key@))
                &&& e.name@ == key@
                &&& Some(e.value@) == lookup(vars@, key@)
            },
        },
        read matches Ok(Some(text)) ==> encode_utf8(text@) == vars@[key@],
{
    match vars.var(key) {
        Ok(text) => {
            proof {
                lemma_empty_text(vars@[key@]);
                decode_utf8_encode_utf8(vars@[key@]);
            }
            if text.as_str().is_empty() {
                Ok(None)
            } else {
                Ok(Some(text))
            }
        },
        Err(VarError::NotPresent) => Ok(None),
        Err(VarError::NotUnicode(value)) => Err(DecodeError { name: key.to_owned(), value }),
    }
}

/// The changes that a coverage build needs, in the order in which they are
/// made: unset `LLVM_COV_FLAGS`, unset `LLVM_PROFDATA_FLAGS`, set
/// `CARGO_INCREMENTAL` to `0`.
pub fn forced_changes() -> (changes: Vec<Change>)
    ensures
        changes@.len() == 3,
        changes@[0] matches Change::Unset(name) && name@ == "LLVM_COV_FLAGS"@,
        changes@[1] matches Change::Unset(name) && name@ == "LLVM_PROFDATA_FLAGS"@,
        changes@[2] matches Change::Assign(name, value) && name@ == "CARGO_INCREMENTAL"@ && value@
            == encode_utf8("0"@),
        forall|vars: Map<Seq<char>, Seq<u8>>| #[trigger] applied_all(changes@, vars) == forced(vars),
{
    let mut changes: Vec<Change> = Vec::new();
    changes.push(Change::Unset("LLVM_COV_FLAGS".to_owned()));
    changes.push(Change::Unset("LLVM_PROFDATA_FLAGS".to_owned()));
    changes.push(Change::Assign("CARGO_INCREMENTAL".to_owned(), slice_to_vec("0".as_bytes())));
    proof {
        assert forall|vars: Map<Seq<char>, Seq<u8>>| #[trigger]
            applied_all(changes@, vars) == forced(vars) by {
            let two = changes@.drop_last();
            let one = two.drop_last();
            assert(one.drop_last().len() == 0);
            assert(applied_all(one.drop_last(), vars) == vars);
            assert(applied_all(one, vars) == one.last().applied(vars));
            assert(applied_all(two, vars) == two.last().applied(applied_all(one, vars)));
        }
    }
    changes
}

impl Env {
    /// Takes the snapshot from `vars` and forces the build mode onto it.
    ///
    /// `current_exe` is the path of the running executable, where it could be
    /// found; `exe_suffix` is the suffix that executables have on the
    /// platform. The two flag variables are read first. If one of them is set
    /// to bytes that are not text, the snapshot fails on the first such
    /// variable and `vars` is left as it was. Otherwise the forced changes are
    /// made to `vars`, the other variables are read as they are, and the
    /// snapshot is returned. A path that could not be found never makes it
    /// fail: the fallback name stands in for it.
    pub fn new(vars: &mut EnvTable, current_exe: Option<Vec<u8>>, exe_suffix: &str) -> (made:
        Result<Env, DecodeError>)
        ensures
            match made {
                Ok(env) => {
                    &&& undecodable(old(vars)@) is None
                    &&& env@ == captured(old(vars)@, opt_bytes(current_exe), exe_suffix@)
                    &&& final(vars)@ == forced(old(vars)@)
                },
                Err(e) => {
                    &&& undecodable(old(vars)@) == Some(e.name@)
                    &&& lookup(old(vars)@, e.name@) == Some(e.value@)
                    &&& final(vars)@ == old(vars)@
                },
            },
            made is Ok <==> undecodable(old(vars)@) is None,
            made is Ok ==> {
                &&& !final(vars)@.contains_key("LLVM_COV_FLAGS"@)
                &&& !final(vars)@.contains_key("LLVM_PROFDATA_FLAGS"@)
                &&& lookup(final(vars)@, "CARGO_INCREMENTAL"@) == Some(encode_utf8("0"@))
            },
    {
        let cargo_llvm_cov_flags = ver(vars, "CARGO_LLVM_COV_FLAGS")?;
        let cargo_llvm_profdata_flags = ver(vars, "CARGO_LLVM_PROFDATA_FLAGS")?;
        let changes = forced_changes();
        let mut done: usize = 0;
        while done < changes.len()
            invariant
                done <= changes@.len(),
                vars@ == applied_all(changes@.take(done as int), old(vars)@),
            decreases changes@.len() - done,
        {
            vars.apply(&changes[done]);
            proof {
                assert(changes@.take(done + 1).drop_last() == changes@.take(done as int));
            }
            done += 1;
        }
        proof {
            assert(changes@.take(done as int) == changes@);
            lemma_forced(old(vars)@);
        }
        let ghost want = captured(old(vars)@, opt_bytes(current_exe), exe_suffix@);
        let exe_path = match current_exe {
            Some(path) => path,
            None => {
                let mut exe = slice_to_vec("cargo-llvm-cov".as_bytes());
                exe.extend_from_slice(exe_suffix.as_bytes());
                exe
            },
        };
        let env = Env {
            cargo_llvm_cov_flags,
            cargo_llvm_profdata_flags,
            rustflags: vars.var_os("RUSTFLAGS"),
            rustdocflags: vars.var_os("RUSTDOCFLAGS"),
            rustc: vars.var_os("RUSTC"),
            browser: vars.var_os("BROWSER"),
            cargo: vars.var_os("CARGO"),
            current_exe: exe_path,
        };
        assert(env@.current_exe == want.current_exe);
        Ok(env)
    }

    /// The name to run the compiler by: the value of `RUSTC` where it was
    /// set, else `rustc`.
    pub fn rustc(&self) -> (name: &[u8])
        ensures
            name@ == self@.rustc(),
    {
        match &self.rustc {
            Some(path) => path.as_slice(),
            None => "rustc".as_bytes(),
        }
    }

    /// The name to run the build tool by: the value of `CARGO` where it was
    /// set, else `cargo`.
    pub fn cargo(&self) -> (name: &[u8])
        ensures
            name@ == self@.cargo(),
    {
        match &self.cargo {
            Some(path) => path.as_slice(),
            None => "cargo".as_bytes(),
        }
    }
}

/// The forced changes leave the two legacy flag variables unset and
/// `CARGO_INCREMENTAL` set to the one byte `0`, whatever the three were
/// before, and leave every other variable as it was.
pub proof fn lemma_forced(vars: Map<Seq<char>, Seq<u8>>)
    ensures
        !forced(vars).contains_key("LLVM_COV_FLAGS"@),
        !forced(vars).contains_key("LLVM_PROFDATA_FLAGS"@),
        lookup(forced(vars), "CARGO_INCREMENTAL"@) == Some(encode_utf8("0"@)),
        encode_utf8("0"@) == seq![0x30u8],
        forall|name: Seq<char>|
            name != "LLVM_COV_FLAGS"@ && name != "LLVM_PROFDATA_FLAGS"@ && name
                != "CARGO_INCREMENTAL"@ ==> lookup(forced(vars), name) == lookup(vars, name),
        lookup(forced(vars), "RUSTFLAGS"@) == lookup(vars, "RUSTFLAGS"@),
        lookup(forced(vars), "RUSTDOCFLAGS"@) == lookup(vars, "RUSTDOCFLAGS"@),
        lookup(forced(vars), "RUSTC"@) == lookup(vars, "RUSTC"@),
        lookup(forced(vars), "BROWSER"@) == lookup(vars, "BROWSER"@),
        lookup(forced(vars), "CARGO"@) == lookup(vars, "CARGO"@),
{
    reveal_strlit("LLVM_COV_FLAGS");
    reveal_strlit("LLVM_PROFDATA_FLAGS");
    reveal_strlit("CARGO_INCREMENTAL");
    reveal_strlit("RUSTFLAGS");
    reveal_strlit("RUSTDOCFLAGS");
    reveal_strlit("RUSTC");
    reveal_strlit("BROWSER");
    reveal_strlit("CARGO");
    reveal_strlit("0");
    assert("LLVM_COV_FLAGS"@.len() == 14);
    assert("LLVM_PROFDATA_FLAGS"@.len() == 19);
    assert("CARGO_INCREMENTAL"@.len() == 17);
    assert("RUSTFLAGS"@.len() == 9);
    assert("RUSTDOCFLAGS"@.len() == 12);
    assert("RUSTC"@.len() == 5);
    assert("BROWSER"@.len() == 7);
    assert("CARGO"@.len() == 5);
    is_ascii_chars_encode_utf8("0"@);
    assert(encode_utf8("0"@) =~= seq![0x30u8]);
}

/// A flag variable that is unset or empty gives no flags; one that is set to
/// text that is not empty gives exactly that text, byte for byte.
pub proof fn lemma_normalized(raw: Option<Seq<u8>>)
    requires
        is_text(raw),
    ensures
        raw is None || raw == Some(Seq::<u8>::empty()) ==> normalized(raw) is None,
        raw matches Some(bytes) ==> bytes.len() > 0 ==> (normalized(raw) matches Some(text)
            && encode_utf8(text) == bytes),
{
    if let Some(bytes) = raw {
        decode_utf8_encode_utf8(bytes);
    }
}

/// Where the path of the running executable could not be found, the path
/// that is kept reads as the text `cargo-llvm-cov` followed by the
/// platform's suffix, whatever the variables hold.
pub proof fn lemma_fallback_exe(vars: Map<Seq<char>, Seq<u8>>, exe_suffix: Seq<char>)
    ensures
        captured(vars, None, exe_suffix).current_exe == fallback_exe(exe_suffix),
        fallback_exe(exe_suffix) == encode_utf8("cargo-llvm-cov"@ + exe_suffix),
        valid_utf8(fallback_exe(exe_suffix)),
        decode_utf8(fallback_exe(exe_suffix)) == "cargo-llvm-cov"@ + exe_suffix,
{
    lemma_encode_concat("cargo-llvm-cov"@, exe_suffix);
    encode_utf8_valid_utf8("cargo-llvm-cov"@ + exe_suffix);
    encode_utf8_decode_utf8("cargo-llvm-cov"@ + exe_suffix);
}

/// The compiler is run by the value of `RUSTC` where the variable is set to
/// a value that is not empty, and by `rustc` where it is unset. (Where it is
/// set to the empty value, that value is the name.)
pub proof fn lemma_rustc_override(
    vars: Map<Seq<char>, Seq<u8>>,
    current_exe: Option<Seq<u8>>,
    exe_suffix: Seq<char>,
)
    requires
        lookup(vars, "RUSTC"@) != Some(Seq::<u8>::empty()),
    ensures
        captured(vars, current_exe, exe_suffix).rustc() == if vars.contains_key("RUSTC"@)
            && vars["RUSTC"@].len() > 0 {
            vars["RUSTC"@]
        } else {
            encode_utf8("rustc"@)
        },
{
    if vars.contains_key("RUSTC"@) {
        assert(vars["RUSTC"@].len() > 0) by {
            if vars["RUSTC"@].len() == 0 {
                assert(vars["RUSTC"@] =~= Seq::<u8>::empty());
            }
        }
    }
}

/// The build tool is run by the value of `CARGO` where the variable is set
/// to a value that is not empty, and by `cargo` where it is unset. (Where it
/// is set to the empty value, that value is the name.)
pub proof fn lemma_cargo_override(
    vars: Map<Seq<char>, Seq<u8>>,
    current_exe: Option<Seq<u8>>,
    exe_suffix: Seq<char>,
)
    requires
        lookup(vars, "CARGO"@) != Some(Seq::<u8>::empty()),
    ensures
        captured(vars, current_exe, exe_suffix).cargo() == if vars.contains_key("CARGO"@)
            && vars["CARGO"@].len() > 0 {
            vars["CARGO"@]
        } else {
            encode_utf8("cargo"@)
        },
{
    if vars.contains_key("CARGO"@) {
        assert(vars["CARGO"@].len() > 0) by {
            if vars["CARGO"@].len() == 0 {
                assert(vars["CARGO"@] =~= Seq::<u8>::empty());
            }
        }
    }
}

} // verus!
