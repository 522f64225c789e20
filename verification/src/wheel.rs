//! Installed wheels and the file names they are packed back into.

use vstd::prelude::*;
use vstd::string::StringExecFns;

use crate::tags::views;
use crate::text::{char_seqs, chars_of, push_char, split_all, split_chars, string_of};

verus! {

/// Why a wheel could not be named.
#[derive(Copy, Clone, Debug, PartialEq, Eq)]
pub enum WheelError {
    /// A tag that is not `<python>-<abi>-<platform>`.
    InvalidTag,
    /// A RECORD path that lies under none of the install paths.
    UnexpectedRecordPath,
}

/// Whether `a` comes before `b` in the order of their characters' code
/// points, a proper prefix first (the order of their UTF-8 bytes).
pub open spec fn lex_lt(a: Seq<char>, b: Seq<char>) -> bool
    decreases a.len(),
{
    if a.len() == 0 {
        b.len() > 0
    } else if b.len() == 0 {
        false
    } else if a[0] != b[0] {
        (a[0] as u32) < (b[0] as u32)
    } else {
        lex_lt(a.drop_first(), b.drop_first())
    }
}

/// `s`, which is in increasing order, with `x` added in its place unless it
/// is there already.
pub open spec fn insert_sorted(s: Seq<Seq<char>>, x: Seq<char>) -> Seq<Seq<char>>
    decreases s.len(),
{
    if s.len() == 0 {
        seq![x]
    } else if s[0] == x {
        s
    } else if lex_lt(x, s[0]) {
        seq![x] + s
    } else {
        seq![s[0]] + insert_sorted(s.drop_first(), x)
    }
}

/// The distinct items in increasing order.
pub open spec fn sorted_set(items: Seq<Seq<char>>) -> Seq<Seq<char>>
    decreases items.len(),
{
    if items.len() == 0 {
        Seq::<Seq<char>>::empty()
    } else {
        insert_sorted(sorted_set(items.drop_last()), items.last())
    }
}

/// Whether `s` is in strictly increasing order.
pub open spec fn strictly_increasing(s: Seq<Seq<char>>) -> bool {
    forall|i: int, j: int| 0 <= i < j < s.len() ==> lex_lt(#[trigger] s[i], #[trigger] s[j])
}

/// The order of texts is a strict total order.
pub proof fn lemma_lex_order(a: Seq<char>, b: Seq<char>)
    ensures
        !lex_lt(a, a),
        lex_lt(a, b) ==> !lex_lt(b, a),
        a != b ==> lex_lt(a, b) || lex_lt(b, a),
    decreases a.len(),
{
    if a.len() > 0 && b.len() > 0 {
        lemma_lex_order(a.drop_first(), b.drop_first());
        if a[0] == b[0] && a != b {
            assert(a.drop_first() != b.drop_first()) by {
                if a.drop_first() == b.drop_first() {
                    assert(a =~= b) by {
                        assert forall|i: int| 0 <= i < a.len() implies a[i] == b[i] by {
                            if i > 0 {
                                assert(a[i] == a.drop_first()[i - 1]);
                                assert(b[i] == b.drop_first()[i - 1]);
                            }
                        }
                    }
                }
            }
        }
        if a[0] != b[0] {
            vstd::utf8::char_u32_cast(a[0], a[0] as u32);
            vstd::utf8::char_u32_cast(b[0], b[0] as u32);
        }
    } else if a.len() == 0 && b.len() == 0 {
        assert(a =~= b);
    } else if a.len() > 0 {
        lemma_lex_order(a.drop_first(), a.drop_first());
    }
}

/// The order of texts is transitive.
pub proof fn lemma_lex_transitive(a: Seq<char>, b: Seq<char>, c: Seq<char>)
    requires
        lex_lt(a, b),
        lex_lt(b, c),
    ensures
        lex_lt(a, c),
    decreases a.len(),
{
    if a.len() > 0 && b.len() > 0 && c.len() > 0 && a[0] == b[0] && b[0] == c[0] {
        lemma_lex_transitive(a.drop_first(), b.drop_first(), c.drop_first());
    }
}

proof fn lemma_insert_sorted(s: Seq<Seq<char>>, x: Seq<char>)
    requires
        strictly_increasing(s),
    ensures
        strictly_increasing(insert_sorted(s, x)),
        insert_sorted(s, x).to_set() == s.to_set().insert(x),
    decreases s.len(),
{
    if s.len() == 0 {
        assert(seq![x].to_set() =~= s.to_set().insert(x)) by {
            assert(seq![x][0] == x);
        }
    } else if s[0] == x {
        assert(s.to_set().insert(x) =~= s.to_set()) by {
            assert(s.to_set().contains(x)) by {
                assert(s[0] == x);
            }
        }
    } else if lex_lt(x, s[0]) {
        let t = seq![x] + s;
        assert forall|i: int, j: int| 0 <= i < j < t.len() implies lex_lt(#[trigger] t[i], #[trigger] t[j]) by {
            if i == 0 {
                if j > 1 {
                    assert(lex_lt(s[0], s[j - 1]));
                    lemma_lex_transitive(x, s[0], s[j - 1]);
                }
            } else {
                assert(t[i] == s[i - 1] && t[j] == s[j - 1]);
            }
        }
        assert(t.to_set() =~= s.to_set().insert(x)) by {
            assert forall|y: Seq<char>| t.to_set().contains(y) implies s.to_set().insert(x).contains(y) by {
                let k = choose|k: int| 0 <= k < t.len() && t[k] == y;
                if k > 0 {
                    assert(s[k - 1] == y);
                }
            }
            assert forall|y: Seq<char>| s.to_set().insert(x).contains(y) implies t.to_set().contains(y) by {
                if y == x {
                    assert(t[0] == x);
                } else {
                    let k = choose|k: int| 0 <= k < s.len() && s[k] == y;
                    assert(t[k + 1] == y);
                }
            }
        }
    } else {
        lemma_lex_order(x, s[0]);
        let rest = s.drop_first();
        assert(strictly_increasing(rest)) by {
            assert forall|i: int, j: int| 0 <= i < j < rest.len() implies lex_lt(#[trigger] rest[i], #[trigger] rest[j]) by {
                assert(rest[i] == s[i + 1] && rest[j] == s[j + 1]);
            }
        }
        lemma_insert_sorted(rest, x);
        let ins = insert_sorted(rest, x);
        let t = seq![s[0]] + ins;
        assert forall|k: int| 0 <= k < ins.len() implies lex_lt(s[0], #[trigger] ins[k]) by {
            assert(ins.to_set().contains(ins[k]));
            if ins[k] != x {
                assert(rest.to_set().contains(ins[k]));
                let m = choose|m: int| 0 <= m < rest.len() && rest[m] == ins[k];
                assert(s[m + 1] == ins[k]);
                assert(lex_lt(s[0], s[m + 1]));
            }
        }
        assert forall|i: int, j: int| 0 <= i < j < t.len() implies lex_lt(#[trigger] t[i], #[trigger] t[j]) by {
            if i == 0 {
                assert(t[j] == ins[j - 1]);
            } else {
                assert(t[i] == ins[i - 1] && t[j] == ins[j - 1]);
            }
        }
        assert(t.to_set() =~= s.to_set().insert(x)) by {
            assert forall|y: Seq<char>| t.to_set().contains(y) implies s.to_set().insert(x).contains(y) by {
                let k = choose|k: int| 0 <= k < t.len() && t[k] == y;
                if k == 0 {
                    assert(s[0] == y);
                } else {
                    assert(ins[k - 1] == y);
                    assert(ins.to_set().contains(y));
                    if y != x {
                        assert(rest.to_set().contains(y));
                        let m = choose|m: int| 0 <= m < rest.len() && rest[m] == y;
                        assert(s[m + 1] == y);
                    }
                }
            }
            assert forall|y: Seq<char>| s.to_set().insert(x).contains(y) implies t.to_set().contains(y) by {
                if y == s[0] {
                    assert(t[0] == y);
                } else {
                    assert(ins.to_set().contains(y)) by {
                        if y != x {
                            let m = choose|m: int| 0 <= m < s.len() && s[m] == y;
                            assert(m > 0);
                            assert(rest[m - 1] == y);
                            assert(rest.to_set().contains(y));
                        }
                    }
                    let k = choose|k: int| 0 <= k < ins.len() && ins[k] == y;
                    assert(t[k + 1] == y);
                }
            }
        }
    }
}

/// The distinct items in increasing order are in strictly increasing order
/// and are exactly the items: each is listed once, and every item is listed.
pub proof fn law_sorted_set(items: Seq<Seq<char>>)
    ensures
        strictly_increasing(sorted_set(items)),
        sorted_set(items).to_set() == items.to_set(),
        sorted_set(items).no_duplicates(),
    decreases items.len(),
{
    if items.len() == 0 {
        assert(items.to_set() =~= Set::<Seq<char>>::empty());
        assert(sorted_set(items).to_set() =~= Set::<Seq<char>>::empty());
    } else {
        law_sorted_set(items.drop_last());
        lemma_insert_sorted(sorted_set(items.drop_last()), items.last());
        assert(items.to_set() =~= items.drop_last().to_set().insert(items.last())) by {
            assert forall|y: Seq<char>| items.to_set().contains(y) implies items.drop_last().to_set().insert(items.last()).contains(y) by {
                let k = choose|k: int| 0 <= k < items.len() && items[k] == y;
                if k < items.len() - 1 {
                    assert(items.drop_last()[k] == y);
                }
            }
            assert forall|y: Seq<char>| items.drop_last().to_set().insert(items.last()).contains(y) implies items.to_set().contains(y) by {
                if y == items.last() {
                    assert(items[items.len() - 1] == y);
                } else {
                    let k = choose|k: int| 0 <= k < items.len() - 1 && items.drop_last()[k] == y;
                    assert(items[k] == y);
                }
            }
        }
    }
    let r = sorted_set(items);
    assert forall|i: int, j: int| 0 <= i < r.len() && 0 <= j < r.len() && i != j implies r[i] != r[j] by {
        if i < j {
            assert(lex_lt(r[i], r[j]));
            lemma_lex_order(r[i], r[i]);
        } else {
            assert(lex_lt(r[j], r[i]));
            lemma_lex_order(r[j], r[j]);
        }
    }
}

/// Whether `a` comes before `b`.
pub fn lex_less(a: &[char], b: &[char]) -> (res: bool)
    ensures
        res == lex_lt(a@, b@),
{
    let mut i: usize = 0;
    assert(a@.skip(0) =~= a@);
    assert(b@.skip(0) =~= b@);
    loop
        invariant
            i <= a.len(),
            i <= b.len(),
            lex_lt(a@, b@) == lex_lt(a@.skip(i as int), b@.skip(i as int)),
        decreases a.len() - i,
    {
        if i == a.len() {
            return i < b.len();
        }
        if i == b.len() {
            return false;
        }
        assert(a@.skip(i as int)[0] == a@[i as int]);
        assert(b@.skip(i as int)[0] == b@[i as int]);
        if a[i] != b[i] {
            return (a[i] as u32) < (b[i] as u32);
        }
        assert(a@.skip(i as int).drop_first() =~= a@.skip(i + 1));
        assert(b@.skip(i as int).drop_first() =~= b@.skip(i + 1));
        i = i + 1;
    }
}

/// Adds `x` to the increasing sequence `v` in its place, unless it is there.
fn insert_in_order(v: &mut Vec<Vec<char>>, x: Vec<char>)
    ensures
        char_seqs(final(v)@) == insert_sorted(char_seqs(old(v)@), x@),
{
    let ghost s = char_seqs(v@);
    let mut k: usize = 0;
    assert(s.skip(0) =~= s);
    assert(s.take(0) + insert_sorted(s.skip(0), x@) =~= insert_sorted(s, x@));
    while k < v.len()
        invariant
            k <= v@.len(),
            s == char_seqs(v@),
            s == char_seqs(old(v)@),
            insert_sorted(s, x@) == s.take(k as int) + insert_sorted(s.skip(k as int), x@),
        decreases v.len() - k,
    {
        assert(s.skip(k as int)[0] == v@[k as int]@);
        assert(s.skip(k as int).drop_first() =~= s.skip(k + 1));
        if crate::text::chars_eq(v[k].as_slice(), x.as_slice()) {
            assert(insert_sorted(s.skip(k as int), x@) == s.skip(k as int));
            assert(s.take(k as int) + s.skip(k as int) =~= s);
            return;
        }
        if lex_less(x.as_slice(), v[k].as_slice()) {
            let ghost xv = x@;
            assert(insert_sorted(s.skip(k as int), x@) == seq![xv] + s.skip(k as int));
            v.insert(k, x);
            assert(char_seqs(v@) =~= s.take(k as int) + (seq![xv] + s.skip(k as int)));
            return;
        }
        assert(s.take(k + 1) =~= s.take(k as int) + seq![s[k as int]]);
        proof {
            vstd::seq_lib::lemma_concat_associative(s.take(k as int), seq![s[k as int]], insert_sorted(s.skip(k + 1), x@));
        }
        k = k + 1;
    }
    let ghost xv = x@;
    v.push(x);
    assert(s.skip(k as int) =~= Seq::<Seq<char>>::empty());
    assert(s.take(k as int) =~= s);
    assert(char_seqs(v@) =~= s + seq![xv]);
}

/// The distinct items in increasing order.
pub fn sorted_distinct(items: &Vec<Vec<char>>) -> (v: Vec<Vec<char>>)
    ensures
        char_seqs(v@) == sorted_set(char_seqs(items@)),
{
    let ghost all = char_seqs(items@);
    let mut v: Vec<Vec<char>> = Vec::new();
    let mut i: usize = 0;
    assert(all.take(0) =~= Seq::<Seq<char>>::empty());
    assert(char_seqs(v@) =~= Seq::<Seq<char>>::empty());
    while i < items.len()
        invariant
            i <= items@.len(),
            all == char_seqs(items@),
            char_seqs(v@) == sorted_set(all.take(i as int)),
        decreases items.len() - i,
    {
        let item = crate::text::sub_chars(items[i].as_slice(), 0, items[i].len());
        assert(item@ =~= items@[i as int]@);
        assert(all.take(i + 1).drop_last() =~= all.take(i as int));
        assert(all.take(i + 1).last() == all[i as int]);
        insert_in_order(&mut v, item);
        i = i + 1;
    }
    assert(all.take(items@.len() as int) =~= all);
    v
}

/// The parts of a wheel tag, `<python>-<abi>-<platform>`, when it has exactly
/// three.
pub open spec fn spec_tag_parts(tag: Seq<char>) -> Option<(Seq<char>, Seq<char>, Seq<char>)> {
    let parts = split_all(tag, '-');
    if parts.len() == 3 {
        Some((parts[0], parts[1], parts[2]))
    } else {
        None
    }
}

/// Whether every tag has three parts.
pub open spec fn tags_valid(tags: Seq<Seq<char>>) -> bool {
    forall|i: int| 0 <= i < tags.len() ==> (#[trigger] spec_tag_parts(tags[i])) is Some
}

/// The python, abi or platform parts of the tags.
pub open spec fn tag_part(tags: Seq<Seq<char>>, which: int) -> Seq<Seq<char>> {
    tags.map_values(
        |t: Seq<char>|
            match spec_tag_parts(t) {
                Some((p, a, pl)) => if which == 0 {
                    p
                } else if which == 1 {
                    a
                } else {
                    pl
                },
                None => Seq::<char>::empty(),
            },
    )
}

proof fn lemma_tag_part_push(tags: Seq<Seq<char>>, i: int, which: int)
    requires
        0 <= i < tags.len(),
    ensures
        tag_part(tags.take(i + 1), which) == tag_part(tags.take(i), which).push(
            tag_part(tags.take(i + 1), which)[i],
        ),
{
    assert(tag_part(tags.take(i + 1), which) =~= tag_part(tags.take(i), which).push(
        tag_part(tags.take(i + 1), which)[i],
    ));
}

/// The items joined by `.`.
pub open spec fn dotted(items: Seq<Seq<char>>) -> Seq<char>
    decreases items.len(),
{
    if items.len() == 0 {
        Seq::<char>::empty()
    } else if items.len() == 1 {
        items[0]
    } else {
        dotted(items.drop_last()) + "."@ + items.last()
    }
}

/// The file name of a wheel:
/// `<project>-<version>[-<build>]-<pythons>-<abis>-<platforms>.whl`, where each
/// of the last three lists the distinct parts of that kind of its tags, in
/// increasing order, joined by `.`.
pub open spec fn spec_file_name(
    project_name: Seq<char>,
    version: Seq<char>,
    build: Option<Seq<char>>,
    tags: Seq<Seq<char>>,
) -> Seq<char> {
    project_name + "-"@ + version + "-"@ + match build {
        Some(b) => b + "-"@,
        None => Seq::<char>::empty(),
    } + dotted(sorted_set(tag_part(tags, 0))) + "-"@ + dotted(sorted_set(tag_part(tags, 1))) + "-"@
        + dotted(sorted_set(tag_part(tags, 2))) + ".whl"@
}

/// An installed wheel: its project name and version, its tags, its build
/// number, and whether its root is the pure-Python library directory.
pub struct InstalledWheel {
    pub project_name: String,
    pub version: String,
    pub tags: Vec<String>,
    pub build: Option<String>,
    pub root_is_purelib: bool,
}

/// The text of an optional string.
pub open spec fn opt_string(s: Option<String>) -> Option<Seq<char>> {
    match s {
        Some(s) => Some(s@),
        None => None,
    }
}

fn push_dotted(out: &mut String, items: &Vec<Vec<char>>)
    ensures
        final(out)@ == old(out)@ + dotted(char_seqs(items@)),
{
    let ghost start = out@;
    let ghost all = char_seqs(items@);
    let mut i: usize = 0;
    assert(all.take(0) =~= Seq::<Seq<char>>::empty());
    while i < items.len()
        invariant
            i <= items@.len(),
            all == char_seqs(items@),
            out@ == start + dotted(all.take(i as int)),
        decreases items.len() - i,
    {
        let ghost before = out@;
        if i > 0 {
            push_char(out, '.');
        }
        let text = string_of(items[i].as_slice());
        out.append(text.as_str());
        assert(all.take(i + 1).drop_last() =~= all.take(i as int));
        assert(all.take(i + 1).last() == items@[i as int]@);
        proof {
            if i > 0 {
                vstd::seq_lib::lemma_concat_associative(start, dotted(all.take(i as int)), seq!['.']);
                vstd::seq_lib::lemma_concat_associative(start + dotted(all.take(i as int)), seq!['.'], items@[i as int]@);
                assert(seq!['.'] == "."@) by {
                    reveal_strlit(".");
                }
                assert(out@ =~= start + (dotted(all.take(i as int)) + "."@ + items@[i as int]@));
            } else {
                assert(all.take(i + 1) =~= seq![items@[i as int]@]);
                assert(out@ =~= start + items@[i as int]@);
            }
        }
        i = i + 1;
    }
    assert(all.take(items@.len() as int) =~= all);
}

impl InstalledWheel {
    /// `<project name>-<version>`.
    pub fn to_string(&self) -> (s: String)
        ensures
            s@ == self.project_name@ + "-"@ + self.version@,
    {
        let mut s = self.project_name.clone();
        s.append("-");
        s.append(self.version.as_str());
        s
    }

    /// The file name of the wheel, as [`spec_file_name`] composes it; an
    /// error when a tag is not `<python>-<abi>-<platform>`. A wheel with no
    /// tags is refused, as sizing its name would underflow.
    pub fn file_name(&self) -> (res: Result<String, WheelError>)
        requires
            self.tags@.len() > 0,
        ensures
            match res {
                Ok(s) => tags_valid(views(self.tags@)) && s@ == spec_file_name(
                    self.project_name@,
                    self.version@,
                    opt_string(self.build),
                    views(self.tags@),
                ),
                Err(e) => !tags_valid(views(self.tags@)) && e == WheelError::InvalidTag,
            },
    {
        let ghost tags = views(self.tags@);
        let mut pythons: Vec<Vec<char>> = Vec::new();
        let mut abis: Vec<Vec<char>> = Vec::new();
        let mut platforms: Vec<Vec<char>> = Vec::new();
        let mut i: usize = 0;
        while i < self.tags.len()
            invariant
                i <= self.tags@.len(),
                tags == views(self.tags@),
                forall|j: int| 0 <= j < i ==> (#[trigger] spec_tag_parts(tags[j])) is Some,
                char_seqs(pythons@) == tag_part(tags.take(i as int), 0),
                char_seqs(abis@) == tag_part(tags.take(i as int), 1),
                char_seqs(platforms@) == tag_part(tags.take(i as int), 2),
            decreases self.tags.len() - i,
        {
            let chars = chars_of(self.tags[i].as_str());
            assert(tags[i as int] == self.tags@[i as int]@);
            let mut parts = split_chars(chars.as_slice(), '-');
            let ghost ps = char_seqs(parts@);
            if parts.len() != 3 {
                assert(spec_tag_parts(tags[i as int]) is None);
                assert(!tags_valid(tags));
                return Err(WheelError::InvalidTag);
            }
            assert(ps[0] == parts@[0]@ && ps[1] == parts@[1]@ && ps[2] == parts@[2]@);
            assert(spec_tag_parts(tags[i as int]) == Some((ps[0], ps[1], ps[2])));
            let platform = parts.pop().unwrap();
            let abi = parts.pop().unwrap();
            let python = parts.pop().unwrap();
            let ghost (pv, av, plv) = (python@, abi@, platform@);
            assert(pv == ps[0] && av == ps[1] && plv == ps[2]);
            assert(tags.take(i + 1)[i as int] == tags[i as int]);
            assert(tag_part(tags.take(i + 1), 0)[i as int] == pv);
            assert(tag_part(tags.take(i + 1), 1)[i as int] == av);
            assert(tag_part(tags.take(i + 1), 2)[i as int] == plv);
            proof {
                crate::text::lemma_char_seqs_push(pythons@, python);
                crate::text::lemma_char_seqs_push(abis@, abi);
                crate::text::lemma_char_seqs_push(platforms@, platform);
                lemma_tag_part_push(tags, i as int, 0);
                lemma_tag_part_push(tags, i as int, 1);
                lemma_tag_part_push(tags, i as int, 2);
            }
            pythons.push(python);
            abis.push(abi);
            platforms.push(platform);
            i = i + 1;
        }
        assert(tags.take(i as int) =~= tags);
        let pythons = sorted_distinct(&pythons);
        let abis = sorted_distinct(&abis);
        let platforms = sorted_distinct(&platforms);
        let mut name = self.project_name.clone();
        name.append("-");
        name.append(self.version.as_str());
        name.append("-");
        if let Some(build) = &self.build {
            name.append(build.as_str());
            name.append("-");
        }
        let ghost head = name@;
        push_dotted(&mut name, &pythons);
        name.append("-");
        push_dotted(&mut name, &abis);
        name.append("-");
        push_dotted(&mut name, &platforms);
        name.append(".whl");
        assert(name@ =~= spec_file_name(self.project_name@, self.version@, opt_string(self.build), tags));
        Ok(name)
    }
}

/// Where an installed file lies relative to each install path of a wheel
/// that it lies under (as POSIX text): the scripts, the headers of the
/// wheel's project, platlib, purelib and data.
pub struct StrippedPaths {
    pub scripts: Option<String>,
    pub headers: Option<String>,
    pub platlib: Option<String>,
    pub purelib: Option<String>,
    pub data: Option<String>,
}

/// `<data_dir>/<kind>/<rel>`.
pub open spec fn data_entry(data_dir: Seq<char>, kind: Seq<char>, rel: Seq<char>) -> Seq<char> {
    data_dir + "/"@ + kind + "/"@ + rel
}

/// Where the RECORD entry `entry` of an installed wheel goes in the wheel
/// re-created from it, and whether it is a script to check for a shebang to
/// rewrite: a plain relative entry stays as it is; else the first install
/// path the installed file lies under decides, in the order scripts,
/// headers, platlib, purelib, data, putting it under that directory of the
/// wheel's `.data` directory `data_dir`, except that an entry-point script
/// (which installing the wheel makes anew) is left out; a file under none of
/// them is an error.
pub open spec fn spec_record_zip_path(
    entry: Seq<char>,
    plain_relative: bool,
    scripts: Option<Seq<char>>,
    headers: Option<Seq<char>>,
    platlib: Option<Seq<char>>,
    purelib: Option<Seq<char>>,
    data: Option<Seq<char>>,
    data_dir: Seq<char>,
    is_entry_point_script: bool,
) -> Result<Option<(Seq<char>, bool)>, WheelError> {
    if plain_relative {
        Ok(Some((entry, false)))
    } else if scripts is Some {
        if is_entry_point_script {
            Ok(None)
        } else {
            Ok(Some((data_entry(data_dir, "scripts"@, scripts->0), true)))
        }
    } else if headers is Some {
        Ok(Some((data_entry(data_dir, "headers"@, headers->0), false)))
    } else if platlib is Some {
        Ok(Some((data_entry(data_dir, "platlib"@, platlib->0), false)))
    } else if purelib is Some {
        Ok(Some((data_entry(data_dir, "purelib"@, purelib->0), false)))
    } else if data is Some {
        Ok(Some((data_entry(data_dir, "data"@, data->0), false)))
    } else {
        Err(WheelError::UnexpectedRecordPath)
    }
}

/// An optional text as a mathematical value.
pub open spec fn opt_seq(o: Option<String>) -> Option<Seq<char>> {
    match o {
        Some(t) => Some(t@),
        None => None,
    }
}

/// `<data_dir>/<kind>/<rel>` as text.
fn data_entry_text(data_dir: &str, kind: &str, rel: &str) -> (s: String)
    ensures
        s@ == data_entry(data_dir@, kind@, rel@),
{
    let mut s = String::from_str(data_dir);
    s.append("/");
    s.append(kind);
    s.append("/");
    s.append(rel);
    proof {
        reveal_strlit("/");
    }
    s
}

/// Where the RECORD entry `entry` goes in the re-created wheel, as
/// [`spec_record_zip_path`] says: `plain_relative` whether the entry is a
/// relative path of plain components, `stripped` where the installed file
/// lies relative to each install path, `data_dir` the wheel's `.data`
/// directory and `is_entry_point_script` whether the file is a single name
/// in the scripts directory whose stem is an entry-point script.
pub fn record_zip_path(
    entry: &str,
    plain_relative: bool,
    stripped: &StrippedPaths,
    data_dir: &str,
    is_entry_point_script: bool,
) -> (res: Result<Option<(String, bool)>, WheelError>)
    ensures
        match (res, spec_record_zip_path(
            entry@,
            plain_relative,
            opt_seq(stripped.scripts),
            opt_seq(stripped.headers),
            opt_seq(stripped.platlib),
            opt_seq(stripped.purelib),
            opt_seq(stripped.data),
            data_dir@,
            is_entry_point_script,
        )) {
            (Ok(Some((p, s))), Ok(Some((q, t)))) => p@ == q && s == t,
            (Ok(None), Ok(None)) => true,
            (Err(e), Err(f)) => e == f,
            _ => false,
        },
{
    if plain_relative {
        return Ok(Some((String::from_str(entry), false)));
    }
    if let Some(rel) = &stripped.scripts {
        if is_entry_point_script {
            return Ok(None);
        }
        return Ok(Some((data_entry_text(data_dir, "scripts", rel.as_str()), true)));
    }
    proof {
        reveal_strlit("scripts");
        reveal_strlit("headers");
        reveal_strlit("platlib");
        reveal_strlit("purelib");
        reveal_strlit("data");
    }
    if let Some(rel) = &stripped.headers {
        return Ok(Some((data_entry_text(data_dir, "headers", rel.as_str()), false)));
    }
    if let Some(rel) = &stripped.platlib {
        return Ok(Some((data_entry_text(data_dir, "platlib", rel.as_str()), false)));
    }
    if let Some(rel) = &stripped.purelib {
        return Ok(Some((data_entry_text(data_dir, "purelib", rel.as_str()), false)));
    }
    if let Some(rel) = &stripped.data {
        return Ok(Some((data_entry_text(data_dir, "data", rel.as_str()), false)));
    }
    Err(WheelError::UnexpectedRecordPath)
}

} // verus!
