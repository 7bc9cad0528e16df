use crate::fs::{
    extension_of, file_name_of, last_dot, lemma_joined_tail, lemma_last_of, lemma_last_of_is,
    parent_of,
};
use crate::index::IndexView;
use crate::project::Pid;
use crate::text::{
    decimal, decimal_digits, lemma_decimal_injective, lemma_decimal_shape, lemma_digit_plain,
};
use vstd::prelude::*;
use vstd::string::*;

verus! {

/// The stem that the default formatter makes: the old stem, `_`, and the number
/// of the project in decimal.
pub open spec fn default_formatted(pid: Pid, stem: Seq<char>) -> Seq<char> {
    stem + seq!['_'] + decimal_digits(pid.id())
}

/// The formatter that a workspace uses unless it has a reason not to.
pub fn default_formatter(pid: &Pid, filename: &str) -> (name: String)
    ensures
        name@ == default_formatted(*pid, filename@),
{
    let mut name = filename.to_owned();
    proof {
        reveal_strlit("_");
    }
    name.append("_");
    name.append(decimal(pid.value()).as_str());
    assert(name@ =~= default_formatted(*pid, filename@));
    name
}

/// The stem that the default formatter gives the file of `index`.
pub open spec fn default_stem(index: IndexView) -> Seq<char> {
    default_formatted(index.pid, index.stem())
}

/// The file name that the default formatter gives the file of `index`.
pub open spec fn default_name(index: IndexView) -> Seq<char> {
    default_stem(index) + index.suffix()
}

/// The last `.` of a default name stands before the extension where there is
/// one, and nowhere past the first character where there is none.
proof fn lemma_default_name_dot(index: IndexView)
    requires
        file_name_of(index.path) is Some,
    ensures
        extension_of(file_name_of(index.path)->0) is Some ==> last_dot(default_name(index))
            == default_stem(index).len() >= 3,
        extension_of(file_name_of(index.path)->0) is None ==> last_dot(default_name(index)) <= 0
            && default_name(index) == default_stem(index),
{
    let name = file_name_of(index.path)->0;
    let stem = index.stem();
    let digits = decimal_digits(index.pid.id());
    let full = default_name(index);
    let core = default_stem(index);
    lemma_last_of(name, '.');
    lemma_decimal_shape(index.pid.id());
    assert forall|j: int| 0 <= j < digits.len() implies digits[j] != '.' by {
        lemma_digit_plain(digits[j]);
    }
    if extension_of(name) is Some {
        let k = last_dot(name);
        let ext = name.skip(k + 1);
        assert(stem == name.take(k));
        assert(full =~= core + (seq!['.'] + ext));
        assert forall|j: int| core.len() < j < full.len() implies full[j] != '.' by {
            assert(full[j] == ext[j - core.len() - 1]);
            assert(ext[j - core.len() - 1] == name[j - core.len() + k]);
        }
        assert(full[core.len() as int] == '.');
        lemma_last_of_is(full, '.', core.len() as int);
    } else {
        assert(stem == name);
        assert(full =~= core);
        assert forall|j: int| 0 < j < full.len() implies full[j] != '.' by {
            if j < stem.len() {
                assert(full[j] == name[j]);
            } else if j == stem.len() {
                assert(full[j] == '_');
            } else {
                assert(full[j] == digits[j - stem.len() - 1]);
            }
        }
        lemma_last_of(full, '.');
    }
}

/// Two files to which the default formatter gives the same stem are of the same
/// project.
proof fn lemma_default_stem_pid(a: IndexView, b: IndexView)
    requires
        default_stem(a) == default_stem(b),
    ensures
        a.pid == b.pid,
{
    let da = decimal_digits(a.pid.id());
    let db = decimal_digits(b.pid.id());
    let core = default_stem(a);
    lemma_decimal_shape(a.pid.id());
    lemma_decimal_shape(b.pid.id());
    assert forall|j: int| a.stem().len() < j < core.len() implies core[j] != '_' by {
        assert(core[j] == da[j - a.stem().len() - 1]);
        lemma_digit_plain(da[j - a.stem().len() - 1]);
    }
    assert(core[a.stem().len() as int] == '_');
    lemma_last_of_is(core, '_', a.stem().len() as int);
    assert forall|j: int| b.stem().len() < j < core.len() implies core[j] != '_' by {
        assert(core[j] == db[j - b.stem().len() - 1]);
        lemma_digit_plain(db[j - b.stem().len() - 1]);
    }
    assert(core[b.stem().len() as int] == '_');
    lemma_last_of_is(core, '_', b.stem().len() as int);
    assert(da =~= core.skip(a.stem().len() as int + 1));
    assert(db =~= core.skip(b.stem().len() as int + 1));
    lemma_decimal_injective(a.pid.id(), b.pid.id());
    Pid::lemma_id_injective(a.pid, b.pid);
}

/// A default name holds no `/` where the file name that it is made from holds none.
proof fn lemma_default_name_plain(index: IndexView)
    requires
        file_name_of(index.path) matches Some(name) && !name.contains('/'),
    ensures
        !default_name(index).contains('/'),
{
    let name = file_name_of(index.path)->0;
    let stem = index.stem();
    let digits = decimal_digits(index.pid.id());
    let suffix = index.suffix();
    let full = default_name(index);
    lemma_last_of(name, '.');
    lemma_decimal_shape(index.pid.id());
    assert(full =~= stem + seq!['_'] + digits + suffix);
    assert forall|j: int| 0 <= j < full.len() implies full[j] != '/' by {
        if j < stem.len() {
            assert(full[j] == stem[j]);
            assert(name.contains(stem[j])) by {
                if last_dot(name) <= 0 {
                    assert(name[j] == stem[j]);
                } else {
                    assert(name[j] == stem[j]);
                }
            }
        } else if j == stem.len() {
        } else if j < stem.len() + 1 + digits.len() {
            assert(full[j] == digits[j - stem.len() - 1]);
            lemma_digit_plain(digits[j - stem.len() - 1]);
        } else {
            let at = j - stem.len() - 1 - digits.len();
            assert(full[j] == suffix[at]);
            if at > 0 {
                let ext = extension_of(name)->0;
                assert(suffix[at] == ext[at - 1]);
                assert(ext[at - 1] == name[last_dot(name) + at]);
                assert(name.contains(suffix[at]));
            }
        }
    }
}

/// With the default formatter, files of different projects are never renamed
/// to the same path.
pub proof fn lemma_rename_unique(a: IndexView, b: IndexView)
    ensures
        a.renames() && b.renames() && a.pid != b.pid ==> a.renamed(default_stem(a)).path
            != b.renamed(default_stem(b)).path,
{
    if a.renames() && b.renames() && a.pid != b.pid {
        let to_a = a.renamed(default_stem(a)).path;
        let to_b = b.renamed(default_stem(b)).path;
        if to_a == to_b {
            lemma_default_name_plain(a);
            lemma_default_name_plain(b);
            lemma_joined_tail(parent_of(a.path)->0, default_name(a));
            lemma_joined_tail(parent_of(b.path)->0, default_name(b));
            assert(default_name(a) == default_name(b));
            lemma_default_name_dot(a);
            lemma_default_name_dot(b);
            let full = default_name(a);
            if extension_of(file_name_of(a.path)->0) is Some {
                assert(default_stem(a) =~= full.take(last_dot(full)));
                assert(default_stem(b) =~= full.take(last_dot(full)));
            }
            lemma_default_stem_pid(a, b);
        }
    }
}

} // verus!
