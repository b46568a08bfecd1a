use vstd::prelude::*;
use vstd::string::StrSliceExecFns;
use crate::store::{RecordStore, StoreV};

verus! {

/// One schema migration: a version number and the script that brings the
/// store up to it.
pub struct Migration {
    pub version: u32,
    pub script: String,
}

/// The mathematical value of a `Migration`.
#[verifier::ext_equal]
pub ghost struct MigrationV {
    pub version: u32,
    pub script: Seq<char>,
}

impl View for Migration {
    type V = MigrationV;

    open spec fn view(&self) -> MigrationV {
        MigrationV { version: self.version, script: self.script@ }
    }
}

impl Clone for Migration {
    fn clone(&self) -> (r: Self)
        ensures
            r@ == self@,
    {
        Migration { version: self.version, script: self.script.clone() }
    }
}

/// The views of a list of migrations.
pub open spec fn view_migrations(v: Seq<Migration>) -> Seq<MigrationV> {
    v.map_values(|m: Migration| m@)
}

/// The version numbers of a list of migrations, in order.
pub open spec fn versions_of(ms: Seq<MigrationV>) -> Seq<u32> {
    ms.map_values(|m: MigrationV| m.version)
}

/// A decimal digit.
pub open spec fn is_digit(c: char) -> bool {
    '0' <= c <= '9'
}

/// The value of a decimal digit.
pub open spec fn digit_val(c: char) -> int {
    c as u32 - '0' as u32
}

/// Every character is a decimal digit.
pub open spec fn all_digits(s: Seq<char>) -> bool {
    forall|k: int| 0 <= k < s.len() ==> is_digit(#[trigger] s[k])
}

/// The number a digit string denotes.
pub open spec fn digits_value(s: Seq<char>) -> int
    decreases s.len(),
{
    if s.len() == 0 {
        0
    } else {
        digits_value(s.drop_last()) * 10 + digit_val(s.last())
    }
}

/// The number a string denotes, where it consists of decimal digits and
/// fits a version counter.
pub open spec fn parse_version(s: Seq<char>) -> Option<u32> {
    if s.len() >= 1 && all_digits(s) && digits_value(s) <= u32::MAX {
        Some(digits_value(s) as u32)
    } else {
        None
    }
}

/// The characters before the first underscore — the whole string when it
/// has none.
pub open spec fn until_underscore(s: Seq<char>) -> Seq<char>
    decreases s.len(),
{
    if s.len() == 0 {
        s
    } else if s.first() == '_' {
        Seq::empty()
    } else {
        seq![s.first()] + until_underscore(s.drop_first())
    }
}

/// The name carries the script suffix `.sql`.
pub open spec fn ends_with_sql(s: Seq<char>) -> bool {
    s.len() >= 4 && s.subrange(s.len() - 4, s.len() as int) =~= seq!['.', 's', 'q', 'l']
}

/// The version a migration file name denotes: the digits before its first
/// underscore, provided the name carries the script suffix — as in
/// `001_initial.sql`.
pub open spec fn migration_version_of(name: Seq<char>) -> Option<u32> {
    if ends_with_sql(name) {
        parse_version(until_underscore(name))
    } else {
        None
    }
}

/// The prefix before the first underscore is the prefix up to the first
/// position that holds one.
proof fn lemma_until_underscore(s: Seq<char>, p: int)
    requires
        0 <= p <= s.len(),
        forall|k: int| 0 <= k < p ==> s[k] != '_',
        p < s.len() ==> s[p] == '_',
    ensures
        until_underscore(s) == s.take(p),
    decreases s.len(),
{
    if s.len() == 0 {
        assert(s.take(p) =~= s);
    } else if p == 0 {
        assert(s.take(0) =~= Seq::<char>::empty());
    } else {
        assert(s.first() != '_');
        let rest = s.drop_first();
        assert(forall|k: int| 0 <= k < p - 1 ==> #[trigger] rest[k] == s[k + 1]);
        lemma_until_underscore(rest, p - 1);
        assert(s.take(p) =~= seq![s.first()] + rest.take(p - 1));
    }
}

/// A digit string denotes a number no smaller than zero.
proof fn lemma_digits_value_nonneg(s: Seq<char>)
    requires
        all_digits(s),
    ensures
        digits_value(s) >= 0,
    decreases s.len(),
{
    if s.len() > 0 {
        assert(all_digits(s.drop_last()));
        lemma_digits_value_nonneg(s.drop_last());
        assert(is_digit(s.last()));
    }
}

/// Reading further digits never shrinks the denoted number.
proof fn lemma_digits_value_grows(s: Seq<char>, i: int)
    requires
        all_digits(s),
        0 <= i <= s.len(),
    ensures
        digits_value(s.take(i)) <= digits_value(s),
    decreases s.len() - i,
{
    if i == s.len() {
        assert(s.take(i) =~= s);
    } else {
        assert(s.take(i + 1).drop_last() =~= s.take(i));
        assert(s.take(i + 1).last() == s[i]);
        assert(all_digits(s.take(i)));
        lemma_digits_value_nonneg(s.take(i));
        assert(is_digit(s[i]));
        assert(digits_value(s.take(i + 1)) == digits_value(s.take(i)) * 10 + digit_val(s[i]));
        lemma_digits_value_grows(s, i + 1);
    }
}

/// The position of the first underscore, or the length when there is
/// none.
fn find_underscore(name: &str) -> (r: usize)
    ensures
        r <= name@.len(),
        forall|k: int| 0 <= k < r ==> name@[k] != '_',
        r < name@.len() ==> name@[r as int] == '_',
{
    let n = name.unicode_len();
    let mut i: usize = 0;
    while i < n
        invariant
            i <= n,
            n == name@.len(),
            forall|k: int| 0 <= k < i ==> name@[k] != '_',
        decreases n - i,
    {
        if name.get_char(i) == '_' {
            return i;
        }
        i = i + 1;
    }
    i
}

/// The version a migration file name denotes, exactly as
/// `migration_version_of` states it.
pub fn parse_migration_version(name: &str) -> (r: Option<u32>)
    ensures
        r == migration_version_of(name@),
{
    let n = name.unicode_len();
    if n < 4 {
        proof {
            assert(!ends_with_sql(name@));
        }
        return None;
    }
    let suffix_ok = name.get_char(n - 4) == '.' && name.get_char(n - 3) == 's' && name.get_char(
        n - 2,
    ) == 'q' && name.get_char(n - 1) == 'l';
    if !suffix_ok {
        proof {
            if ends_with_sql(name@) {
                let tail = name@.subrange(name@.len() - 4, name@.len() as int);
                assert(name@[name@.len() - 4] == tail[0]);
                assert(name@[name@.len() - 3] == tail[1]);
                assert(name@[name@.len() - 2] == tail[2]);
                assert(name@[name@.len() - 1] == tail[3]);
            }
        }
        return None;
    }
    proof {
        assert(name@.subrange(name@.len() - 4, name@.len() as int) =~= seq!['.', 's', 'q', 'l']);
    }
    let upos = find_underscore(name);
    let ghost prefix = until_underscore(name@);
    proof {
        lemma_until_underscore(name@, upos as int);
    }
    if upos == 0 {
        return None;
    }
    let mut value: u64 = 0;
    let mut i: usize = 0;
    while i < upos
        invariant
            i <= upos,
            upos <= name@.len(),
            prefix == until_underscore(name@),
            prefix == name@.take(upos as int),
            prefix.len() == upos,
            all_digits(prefix.take(i as int)),
            value <= 0xFFFFFFFF,
            value == digits_value(prefix.take(i as int)),
        decreases upos - i,
    {
        let c = name.get_char(i);
        proof {
            assert(name@[i as int] == prefix[i as int]);
            assert(prefix.take(i as int + 1).drop_last() =~= prefix.take(i as int));
            assert(prefix.take(i as int + 1).last() == prefix[i as int]);
        }
        if !('0' <= c && c <= '9') {
            proof {
                assert(!is_digit(prefix[i as int]));
                assert(!all_digits(prefix));
            }
            return None;
        }
        let d = (c as u32 - '0' as u32) as u64;
        let nv = value * 10 + d;
        if nv > 0xFFFFFFFF {
            proof {
                assert(digits_value(prefix.take(i as int + 1)) == nv);
                assert(all_digits(prefix.take(i as int + 1)));
                if all_digits(prefix) {
                    lemma_digits_value_grows(prefix, i as int + 1);
                    assert(digits_value(prefix) > u32::MAX);
                }
            }
            return None;
        }
        value = nv;
        i = i + 1;
    }
    proof {
        assert(prefix.take(upos as int) =~= prefix);
    }
    Some(value as u32)
}

/// The migrations a set of files denotes: for each file whose name
/// parses, the denoted version paired with the file's contents, in the
/// order of the files.
pub open spec fn parsed_migrations(fs: Seq<(String, String)>) -> Seq<MigrationV>
    decreases fs.len(),
{
    if fs.len() == 0 {
        Seq::empty()
    } else {
        parsed_migrations(fs.drop_last()) + (match migration_version_of(fs.last().0@) {
            Some(v) => seq![MigrationV { version: v, script: fs.last().1@ }],
            None => Seq::empty(),
        })
    }
}

/// The rows stand in ascending version order.
pub open spec fn sorted_by_version(ms: Seq<MigrationV>) -> bool {
    forall|i: int, j: int| 0 <= i < j < ms.len() ==> (#[trigger] ms[i]).version <= (
    #[trigger] ms[j]).version
}

/// Discover the migrations among a set of named script files: keep each
/// file whose name denotes a version, and order the kept migrations
/// ascending by version.
pub fn collect_migrations(files: &Vec<(String, String)>) -> (r: Vec<Migration>)
    ensures
        sorted_by_version(view_migrations(r@)),
        view_migrations(r@).to_multiset() == parsed_migrations(files@).to_multiset(),
{
    broadcast use vstd::prelude::Seq::to_multiset_ensures;
    broadcast use vstd::multiset::group_multiset_axioms;

    let ghost fvs = files@;
    let mut parsed: Vec<Migration> = Vec::new();
    let mut i: usize = 0;
    proof {
        assert(view_migrations(parsed@) =~= parsed_migrations(fvs.take(0)));
    }
    while i < files.len()
        invariant
            i <= files.len(),
            fvs == files@,
            fvs.len() == files.len(),
            view_migrations(parsed@) == parsed_migrations(fvs.take(i as int)),
        decreases files.len() - i,
    {
        let f = &files[i];
        proof {
            assert(fvs.take(i as int + 1).drop_last() =~= fvs.take(i as int));
            assert(fvs.take(i as int + 1).last() == fvs[i as int]);
        }
        match parse_migration_version(f.0.as_str()) {
            Some(v) => {
                parsed.push(Migration { version: v, script: f.1.clone() });
                proof {
                    assert(view_migrations(parsed@) =~= parsed_migrations(fvs.take(i as int)).push(
                        MigrationV { version: v, script: fvs[i as int].1@ },
                    ));
                    assert(parsed_migrations(fvs.take(i as int + 1)) =~= parsed_migrations(
                        fvs.take(i as int),
                    ).push(MigrationV { version: v, script: fvs[i as int].1@ }));
                }
            },
            None => {
                proof {
                    assert(parsed_migrations(fvs.take(i as int + 1)) =~= parsed_migrations(
                        fvs.take(i as int),
                    ));
                }
            },
        }
        i = i + 1;
    }
    proof {
        assert(fvs.take(fvs.len() as int) =~= fvs);
    }
    let ghost whole = view_migrations(parsed@);
    let mut rest = parsed;
    let mut out: Vec<Migration> = Vec::new();
    proof {
        assert(view_migrations(out@) =~= Seq::<MigrationV>::empty());
        view_migrations(out@).to_multiset_ensures();
        assert forall|m: MigrationV|
            view_migrations(out@).to_multiset().count(m) == 0 by {
            assert(!view_migrations(out@).contains(m));
        }
        assert(view_migrations(out@).to_multiset() =~= vstd::multiset::Multiset::empty());
        assert(view_migrations(out@).to_multiset().add(view_migrations(rest@).to_multiset())
            =~= whole.to_multiset());
    }
    while rest.len() > 0
        invariant
            whole == parsed_migrations(fvs),
            sorted_by_version(view_migrations(out@)),
            view_migrations(out@).to_multiset().add(view_migrations(rest@).to_multiset())
                == whole.to_multiset(),
            forall|a: int, b: int|
                0 <= a < out@.len() && 0 <= b < rest@.len() ==> (#[trigger] view_migrations(
                    out@,
                )[a]).version <= (#[trigger] view_migrations(rest@)[b]).version,
        decreases rest.len(),
    {
        let mut min_idx: usize = 0;
        let mut j: usize = 1;
        while j < rest.len()
            invariant
                min_idx < j <= rest@.len(),
                forall|k: int| 0 <= k < j ==> (#[trigger] rest@[k]@).version
                    >= rest@[min_idx as int]@.version,
            decreases rest.len() - j,
        {
            if rest[j].version < rest[min_idx].version {
                min_idx = j;
            }
            j = j + 1;
        }
        let ghost old_rest = rest@;
        let ghost old_out = out@;
        let m = rest.remove(min_idx);
        out.push(m);
        proof {
            view_migrations(old_out).to_multiset_ensures();
            view_migrations(old_rest).to_multiset_ensures();
            assert(view_migrations(old_rest).contains(view_migrations(old_rest)[min_idx as int]));
            assert(view_migrations(out@) =~= view_migrations(old_out).push(
                view_migrations(old_rest)[min_idx as int],
            ));
            assert(view_migrations(rest@) =~= view_migrations(old_rest).remove(min_idx as int));
            assert(view_migrations(old_out).push(
                view_migrations(old_rest)[min_idx as int],
            ).to_multiset() =~= view_migrations(old_out).to_multiset().insert(
                view_migrations(old_rest)[min_idx as int],
            ));
            assert(view_migrations(out@).to_multiset() =~= view_migrations(
                old_out,
            ).to_multiset().insert(view_migrations(old_rest)[min_idx as int]));
            assert(view_migrations(old_rest).remove(min_idx as int).to_multiset()
                =~= view_migrations(old_rest).to_multiset().remove(
                view_migrations(old_rest)[min_idx as int],
            ));
            assert(view_migrations(rest@).to_multiset() =~= view_migrations(
                old_rest,
            ).to_multiset().remove(view_migrations(old_rest)[min_idx as int]));
            assert(view_migrations(out@).to_multiset().add(view_migrations(rest@).to_multiset())
                =~= whole.to_multiset());
            assert forall|a: int, b: int|
                0 <= a < out@.len() && 0 <= b < rest@.len() implies (#[trigger] view_migrations(
                out@,
            )[a]).version <= (#[trigger] view_migrations(rest@)[b]).version by {
                let bv = if b < min_idx {
                    b
                } else {
                    b + 1
                };
                assert(view_migrations(rest@)[b] == view_migrations(old_rest)[bv]);
                if a < old_out.len() {
                    assert(view_migrations(out@)[a] == view_migrations(old_out)[a]);
                } else {
                    assert(view_migrations(out@)[a] == view_migrations(old_rest)[min_idx as int]);
                }
            }
        }
    }
    proof {
        assert(view_migrations(rest@) =~= Seq::<MigrationV>::empty());
        view_migrations(rest@).to_multiset_ensures();
        assert forall|m: MigrationV|
            view_migrations(rest@).to_multiset().count(m) == 0 by {
            assert(!view_migrations(rest@).contains(m));
        }
        assert(view_migrations(rest@).to_multiset() =~= vstd::multiset::Multiset::empty());
        assert(view_migrations(out@).to_multiset() =~= whole.to_multiset());
    }
    out
}

/// The version counter after a list of migrations is offered in order to
/// a store standing at `v0`: each one whose version exceeds the counter
/// advances it.
pub open spec fn final_version(vs: Seq<u32>, v0: u32) -> u32
    decreases vs.len(),
{
    if vs.len() == 0 {
        v0
    } else {
        final_version(
            vs.drop_first(),
            if vs.first() > v0 {
                vs.first()
            } else {
                v0
            },
        )
    }
}

/// How many of the offered migrations apply.
pub open spec fn applied_count(vs: Seq<u32>, v0: u32) -> nat
    decreases vs.len(),
{
    if vs.len() == 0 {
        0
    } else {
        (if vs.first() > v0 {
            1nat
        } else {
            0nat
        }) + applied_count(
            vs.drop_first(),
            if vs.first() > v0 {
                vs.first()
            } else {
                v0
            },
        )
    }
}

/// Offering one more migration at the end advances the counter exactly
/// when its version exceeds what the earlier ones reached.
pub proof fn lemma_migration_fold_push(vs: Seq<u32>, x: u32, v0: u32)
    ensures
        final_version(vs.push(x), v0) == (if x > final_version(vs, v0) {
            x
        } else {
            final_version(vs, v0)
        }),
        applied_count(vs.push(x), v0) == applied_count(vs, v0) + (if x > final_version(vs, v0) {
            1nat
        } else {
            0nat
        }),
    decreases vs.len(),
{
    if vs.len() == 0 {
        assert(vs.push(x).drop_first() =~= Seq::<u32>::empty());
        assert(vs.push(x).first() == x);
        assert(final_version(vs, v0) == v0);
        assert(applied_count(vs, v0) == 0);
        let v1 = if x > v0 {
            x
        } else {
            v0
        };
        assert(final_version(vs.push(x), v0) == final_version(Seq::<u32>::empty(), v1));
        assert(applied_count(vs.push(x), v0) == (if x > v0 {
            1nat
        } else {
            0nat
        }) + applied_count(Seq::<u32>::empty(), v1));
    } else {
        assert(vs.push(x).drop_last() =~= vs);
        assert(vs.push(x).drop_first() =~= vs.drop_first().push(x));
        assert(vs.push(x).first() == vs.first());
        let v1 = if vs.first() > v0 {
            vs.first()
        } else {
            v0
        };
        lemma_migration_fold_push(vs.drop_first(), x, v1);
    }
}

/// The reached version is no earlier than the starting one and no earlier
/// than any offered version.
pub proof fn lemma_final_version_ge(vs: Seq<u32>, v0: u32)
    ensures
        final_version(vs, v0) >= v0,
        forall|k: int| 0 <= k < vs.len() ==> final_version(vs, v0) >= vs[k],
    decreases vs.len(),
{
    if vs.len() > 0 {
        let v1 = if vs.first() > v0 {
            vs.first()
        } else {
            v0
        };
        lemma_final_version_ge(vs.drop_first(), v1);
        assert(forall|k: int| 1 <= k < vs.len() ==> vs[k] == vs.drop_first()[k - 1]);
    }
}

/// A store whose counter already dominates every offered version takes
/// nothing: the counter stands and nothing applies.
pub proof fn lemma_final_version_fixed(vs: Seq<u32>, v: u32)
    requires
        forall|k: int| 0 <= k < vs.len() ==> vs[k] <= v,
    ensures
        final_version(vs, v) == v,
        applied_count(vs, v) == 0,
    decreases vs.len(),
{
    if vs.len() > 0 {
        assert(forall|k: int| 0 <= k < vs.drop_first().len() ==> vs.drop_first()[k] == vs[k + 1]);
        lemma_final_version_fixed(vs.drop_first(), v);
    }
}

/// Migration is idempotent: offering the same migrations a second time
/// applies none of them and leaves the stored version unchanged.
pub proof fn lemma_migrations_idempotent(vs: Seq<u32>, v0: u32)
    ensures
        final_version(vs, final_version(vs, v0)) == final_version(vs, v0),
        applied_count(vs, final_version(vs, v0)) == 0,
{
    lemma_final_version_ge(vs, v0);
    lemma_final_version_fixed(vs, final_version(vs, v0));
}

impl RecordStore {
    /// Offer a list of migrations to the store, in the order given:
    /// each one whose version exceeds the stored version counter is
    /// applied and advances the counter. The whole batch is one step of
    /// this in-memory engine — there is no partial application to roll
    /// back. Returns how many applied.
    pub fn run_migrations(&mut self, migrations: &Vec<Migration>) -> (applied: usize)
        requires
            old(self).wf(),
        ensures
            final(self).wf(),
            final(self)@ == (StoreV {
                version: final_version(
                    versions_of(view_migrations(migrations@)),
                    old(self)@.version,
                ),
                ..old(self)@
            }),
            applied == applied_count(versions_of(view_migrations(migrations@)), old(self)@.version),
    {
        let ghost vs = versions_of(view_migrations(migrations@));
        let ghost v0 = self@.version;
        let mut applied: usize = 0;
        let mut i: usize = 0;
        proof {
            assert(vs.take(0) =~= Seq::<u32>::empty());
        }
        while i < migrations.len()
            invariant
                i <= migrations.len(),
                vs == versions_of(view_migrations(migrations@)),
                vs.len() == migrations.len(),
                v0 == old(self)@.version,
                self@ == (StoreV { version: final_version(vs.take(i as int), v0), ..old(self)@ }),
                applied == applied_count(vs.take(i as int), v0),
                applied <= i,
                old(self).wf(),
            decreases migrations.len() - i,
        {
            let m = &migrations[i];
            proof {
                assert(m@.version == vs[i as int]);
                assert(vs.take(i as int + 1) =~= vs.take(i as int).push(vs[i as int]));
                lemma_migration_fold_push(vs.take(i as int), vs[i as int], v0);
            }
            if self.version < m.version {
                self.version = m.version;
                applied = applied + 1;
            }
            proof {
                assert(self@ =~= (StoreV {
                    version: final_version(vs.take(i as int + 1), v0),
                    ..old(self)@
                }));
            }
            i = i + 1;
        }
        proof {
            assert(vs.take(vs.len() as int) =~= vs);
        }
        applied
    }
}

} // verus!
