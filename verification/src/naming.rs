//! Readable names for package files.
use vstd::prelude::*;

use crate::domain::{
    bundles_view, files_view, metas_view, Bundle, BundleFile, BundleFileView, BundleView, FileKind, PackageMeta,
    PackageMetaView, ProviderId,
};
use crate::text::{chars_of, decimal, decimal_string, join2, trim, trimmed};

verus! {

/// Bytes that `c` takes in UTF-8.
pub open spec fn utf8_width(c: char) -> nat {
    if (c as u32) < 0x80 {
        1
    } else if (c as u32) < 0x800 {
        2
    } else if (c as u32) < 0x10000 {
        3
    } else {
        4
    }
}

/// Bytes that `s` takes in UTF-8.
pub open spec fn utf8_len(s: Seq<char>) -> nat
    decreases s.len(),
{
    if s.len() == 0 {
        0
    } else {
        utf8_len(s.drop_last()) + utf8_width(s.last())
    }
}

/// Index of the last occurrence of `c` in `s`.
pub open spec fn last_index_of(s: Seq<char>, c: char) -> Option<int>
    decreases s.len(),
{
    if s.len() == 0 {
        None
    } else if s.last() == c {
        Some(s.len() - 1)
    } else {
        last_index_of(s.drop_last(), c)
    }
}

/// The file name without its extension: the part before the last `.`, when
/// that part is not empty and the extension is at most eight bytes long in
/// UTF-8. Otherwise the whole name.
pub open spec fn file_stem(raw: Seq<char>) -> Seq<char> {
    match last_index_of(raw, '.') {
        Some(i) => if i > 0 && utf8_len(raw.subrange(i + 1, raw.len() as int)) <= 8 {
            raw.subrange(0, i)
        } else {
            raw
        },
        None => raw,
    }
}

pub open spec fn is_version_separator(c: char) -> bool {
    c == '-' || c == '_' || c == '+'
}

pub open spec fn is_ascii_digit(c: char) -> bool {
    '0' <= c && c <= '9'
}

/// A separator at `k` that is directly followed by an ASCII digit: the start
/// of a version suffix.
pub open spec fn is_version_cut(s: Seq<char>, k: int) -> bool {
    0 <= k && k + 1 < s.len() && is_version_separator(s[k]) && is_ascii_digit(s[k + 1])
}

/// The first version cut at or after `from`.
pub open spec fn first_cut_from(s: Seq<char>, from: int) -> Option<int>
    decreases s.len() - from,
{
    if from < 0 || from >= s.len() {
        None
    } else if is_version_cut(s, from) {
        Some(from)
    } else {
        first_cut_from(s, from + 1)
    }
}

/// The display name of a package file: the stem, cut before the first version
/// suffix unless that suffix starts the name.
pub open spec fn tidy_name(raw: Seq<char>) -> Seq<char> {
    let stem = file_stem(raw);
    match first_cut_from(stem, 0) {
        Some(k) => if k > 0 {
            stem.subrange(0, k)
        } else {
            stem
        },
        None => stem,
    }
}

proof fn lemma_last_index_in(s: Seq<char>, c: char)
    ensures
        last_index_of(s, c) matches Some(i) ==> 0 <= i < s.len(),
    decreases s.len(),
{
    if s.len() > 0 && s.last() != c {
        lemma_last_index_in(s.drop_last(), c);
    }
}

proof fn lemma_first_cut_in(s: Seq<char>, from: int)
    ensures
        first_cut_from(s, from) matches Some(k) ==> 0 <= from <= k < s.len(),
    decreases s.len() - from,
{
    if 0 <= from < s.len() && !is_version_cut(s, from) {
        lemma_first_cut_in(s, from + 1);
    }
}

proof fn lemma_first_cut_is_first(s: Seq<char>, from: int)
    requires
        0 <= from,
    ensures
        first_cut_from(s, from) matches Some(k) ==> is_version_cut(s, k) && forall|j: int|
            from <= j < k ==> !is_version_cut(s, j),
        first_cut_from(s, from) is None ==> forall|j: int| from <= j ==> !is_version_cut(s, j),
    decreases s.len() - from,
{
    if from < s.len() && !is_version_cut(s, from) {
        lemma_first_cut_is_first(s, from + 1);
    }
}

proof fn lemma_last_dot(s: Seq<char>)
    ensures
        last_index_of(s, '.') matches Some(i) ==> 0 <= i < s.len() && s[i] == '.' && forall|j: int|
            i < j < s.len() ==> s[j] != '.',
        last_index_of(s, '.') is None ==> forall|j: int| 0 <= j < s.len() ==> s[j] != '.',
    decreases s.len(),
{
    if s.len() > 0 && s.last() != '.' {
        lemma_last_dot(s.drop_last());
        assert forall|j: int| 0 <= j < s.len() - 1 implies s.drop_last()[j] == s[j] by {}
    }
}

/// The stem drops the extension behind the last `.`: when that dot is not
/// the first character and the extension takes at most eight bytes, the stem
/// is everything before it; otherwise, or without a dot, the whole name.
pub proof fn law_stem_cuts_at_last_dot(raw: Seq<char>)
    ensures
        (forall|j: int| 0 <= j < raw.len() ==> raw[j] != '.') ==> file_stem(raw) == raw,
        forall|i: int|
            0 <= i < raw.len() && raw[i] == '.' && (forall|j: int| i < j < raw.len() ==> raw[j] != '.')
                ==> file_stem(raw) == (if i > 0 && utf8_len(raw.subrange(i + 1, raw.len() as int)) <= 8 {
                raw.subrange(0, i)
            } else {
                raw
            }),
{
    lemma_last_dot(raw);
    assert forall|i: int|
        0 <= i < raw.len() && raw[i] == '.' && (forall|j: int| i < j < raw.len() ==> raw[j] != '.')
            implies file_stem(raw) == (if i > 0 && utf8_len(raw.subrange(i + 1, raw.len() as int)) <= 8 {
            raw.subrange(0, i)
        } else {
            raw
        }) by {
        match last_index_of(raw, '.') {
            Some(l) => {
                if l < i {
                    assert(raw[i] != '.');
                } else if l > i {
                    assert(raw[l] != '.');
                }
            },
            None => {
                assert(raw[i] != '.');
            },
        }
    }
}

/// The version suffix is cut at the first separator (`-`, `_` or `+`)
/// that a digit follows: everything before it is kept. When the stem has no
/// such separator, or the first one starts the stem, the stem is kept whole.
pub proof fn law_cut_at_first_version(raw: Seq<char>)
    ensures
        ({
            let stem = file_stem(raw);
            let t = tidy_name(raw);
            &&& (forall|j: int| 0 <= j < stem.len() ==> !is_version_cut(stem, j)) ==> t == stem
            &&& is_version_cut(stem, 0) ==> t == stem
            &&& forall|k: int|
                0 < k && is_version_cut(stem, k) && (forall|j: int| 0 <= j < k ==> !is_version_cut(stem, j))
                    ==> t == stem.subrange(0, k)
            &&& t.len() < stem.len() ==> is_version_cut(stem, t.len() as int) && t.len() > 0 && forall|j: int|
                0 <= j < t.len() ==> !is_version_cut(stem, j)
        }),
{
    let stem = file_stem(raw);
    lemma_first_cut_is_first(stem, 0);
    lemma_first_cut_in(stem, 0);
    assert forall|k: int|
        0 < k && is_version_cut(stem, k) && (forall|j: int| 0 <= j < k ==> !is_version_cut(stem, j)) implies tidy_name(
            raw,
        ) == stem.subrange(0, k) by {
        match first_cut_from(stem, 0) {
            Some(c) => {
                if c < k {
                    assert(!is_version_cut(stem, c));
                } else if c > k {
                    assert(!is_version_cut(stem, k));
                }
            },
            None => {
                assert(!is_version_cut(stem, k));
            },
        }
    }
    if (forall|j: int| 0 <= j < stem.len() ==> !is_version_cut(stem, j)) {
        match first_cut_from(stem, 0) {
            Some(c) => {
                assert(!is_version_cut(stem, c));
            },
            None => {},
        }
    }
    if is_version_cut(stem, 0) {
        assert(first_cut_from(stem, 0) == Some(0int));
    }
}

/// A tidied name is the start of the file name, and it is empty only when
/// the file name is.
pub proof fn law_tidy_name_is_prefix(raw: Seq<char>)
    ensures
        tidy_name(raw).len() <= raw.len(),
        tidy_name(raw) == raw.subrange(0, tidy_name(raw).len() as int),
        tidy_name(raw).len() == 0 <==> raw.len() == 0,
{
    lemma_last_index_in(raw, '.');
    let stem = file_stem(raw);
    assert(stem.len() <= raw.len() && stem =~= raw.subrange(0, stem.len() as int));
    assert(stem.len() == 0 <==> raw.len() == 0);
    lemma_first_cut_in(stem, 0);
    let t = tidy_name(raw);
    assert(t.len() <= stem.len() && t =~= stem.subrange(0, t.len() as int));
    assert(t =~= raw.subrange(0, t.len() as int));
}

fn width_of(c: char) -> (w: usize)
    ensures
        w == utf8_width(c),
{
    if (c as u32) < 0x80 {
        1
    } else if (c as u32) < 0x800 {
        2
    } else if (c as u32) < 0x10000 {
        3
    } else {
        4
    }
}

/// Whether the characters `s[from..]` take at most `limit` bytes in UTF-8.
fn tail_fits(s: &Vec<char>, from: usize, limit: usize) -> (r: bool)
    requires
        from <= s@.len(),
        limit < 1000,
    ensures
        r == (utf8_len(s@.subrange(from as int, s@.len() as int)) <= limit),
{
    let mut total: usize = 0;
    let mut i = from;
    while i < s.len()
        invariant
            from <= i <= s@.len(),
            limit < 1000,
            total == utf8_len(s@.subrange(from as int, i as int)),
            total <= limit,
        decreases s@.len() - i,
    {
        let w = width_of(s[i]);
        assert(s@.subrange(from as int, i + 1).drop_last() =~= s@.subrange(from as int, i as int));
        total = total + w;
        if total > limit {
            proof {
                lemma_utf8_len_grows(s@.subrange(from as int, s@.len() as int), (i + 1 - from) as int);
                assert(s@.subrange(from as int, s@.len() as int).subrange(0, i + 1 - from)
                    =~= s@.subrange(from as int, i + 1));
            }
            return false;
        }
        i = i + 1;
    }
    true
}

/// A prefix never takes more bytes than the whole.
proof fn lemma_utf8_len_grows(s: Seq<char>, k: int)
    requires
        0 <= k <= s.len(),
    ensures
        utf8_len(s.subrange(0, k)) <= utf8_len(s),
    decreases s.len(),
{
    if k < s.len() {
        assert(s.drop_last() =~= s.subrange(0, s.len() - 1));
        lemma_utf8_len_grows(s.drop_last(), k);
        assert(s.drop_last().subrange(0, k) =~= s.subrange(0, k));
    } else {
        assert(s.subrange(0, k) =~= s);
    }
}

fn last_dot(s: &Vec<char>) -> (r: Option<usize>)
    ensures
        match r {
            Some(i) => i < s@.len() && last_index_of(s@, '.') == Some(i as int),
            None => last_index_of(s@, '.') == None::<int>,
        },
{
    let mut i = s.len();
    assert(s@.subrange(0, i as int) =~= s@);
    while i > 0
        invariant
            i <= s@.len(),
            last_index_of(s@, '.') == last_index_of(s@.subrange(0, i as int), '.'),
        decreases i,
    {

        let ghost t = s@.subrange(0, i as int);
        if s[i - 1] == '.' {
            assert(t.last() == '.');
            return Some(i - 1);
        }
        assert(t.drop_last() =~= s@.subrange(0, i - 1));
        i = i - 1;
    }
    assert(s@.subrange(0, 0).len() == 0);
    None
}

fn first_cut(s: &Vec<char>) -> (r: Option<usize>)
    ensures
        match r {
            Some(k) => k < s@.len() && first_cut_from(s@, 0) == Some(k as int),
            None => first_cut_from(s@, 0) == None::<int>,
        },
{
    let n = s.len();
    let mut k: usize = 0;
    while k < n
        invariant
            n == s@.len(),
            k <= n,
            first_cut_from(s@, 0) == first_cut_from(s@, k as int),
        decreases n - k,
    {
        let c = s[k];
        if (c == '-' || c == '_' || c == '+') && k + 1 < n && '0' <= s[k + 1] && s[k + 1] <= '9' {
            return Some(k);
        }
        k = k + 1;
    }
    None
}

/// Turns a package's file name into a readable name: drops a short extension
/// and the version suffix, e.g. `sodium-fabric-0.5.11+mc1.20.1.jar` gives
/// `sodium-fabric`.
pub fn tidy_file_name(raw: &str) -> (r: String)
    ensures
        r@ == tidy_name(raw@),
{
    let chars = chars_of(raw);
    let n = chars.len();
    let stem_end: usize = match last_dot(&chars) {
        Some(i) => {
            if i > 0 {
                if tail_fits(&chars, i + 1, 8) {
                    i
                } else {
                    n
                }
            } else {
                n
            }
        },
        None => n,
    };
    let stem = raw.substring_char(0, stem_end);
    assert(stem@ == file_stem(raw@));
    let stem_chars = chars_of(stem);
    match first_cut(&stem_chars) {
        Some(k) => {
            if k > 0 {
                String::from_str(stem.substring_char(0, k))
            } else {
                String::from_str(stem)
            }
        },
        None => String::from_str(stem),
    }
}


/// A table from package ids to names; a later entry for an id replaces the
/// earlier one.
pub struct NameTable {
    entries: Vec<(String, String)>,
    model: Ghost<Map<Seq<char>, Seq<char>>>,
}

pub open spec fn pairs_model(es: Seq<(String, String)>, m: Map<Seq<char>, Seq<char>>) -> bool {
    &&& forall|i: int, j: int|
        0 <= i < es.len() && 0 <= j < es.len() && i != j ==> (#[trigger] es[i]).0@ != (
        #[trigger] es[j]).0@
    &&& forall|i: int|
        0 <= i < es.len() ==> m.contains_key((#[trigger] es[i]).0@) && m[es[i].0@] == es[i].1@
    &&& forall|k: Seq<char>|
        m.contains_key(k) ==> exists|i: int| 0 <= i < es.len() && (#[trigger] es[i]).0@ == k
}

impl View for NameTable {
    type V = Map<Seq<char>, Seq<char>>;

    closed spec fn view(&self) -> Map<Seq<char>, Seq<char>> {
        self.model@
    }
}

fn find_pair(es: &Vec<(String, String)>, key: &str) -> (r: Option<usize>)
    ensures
        match r {
            Some(i) => i < es@.len() && es@[i as int].0@ == key@,
            None => forall|i: int| 0 <= i < es@.len() ==> (#[trigger] es@[i]).0@ != key@,
        },
{
    let mut i: usize = 0;
    while i < es.len()
        invariant
            i <= es@.len(),
            forall|j: int| 0 <= j < i ==> (#[trigger] es@[j]).0@ != key@,
        decreases es@.len() - i,
    {
        if crate::text::str_eq(es[i].0.as_str(), key) {
            return Some(i);
        }
        i = i + 1;
    }
    None
}

impl NameTable {
    #[verifier::type_invariant]
    closed spec fn wf(self) -> bool {
        pairs_model(self.entries@, self.model@)
    }

    /// A table with no names.
    pub fn new() -> (r: NameTable)
        ensures
            r@ == Map::<Seq<char>, Seq<char>>::empty(),
    {
        NameTable { entries: Vec::new(), model: Ghost(Map::empty()) }
    }

    /// The name recorded for `key`.
    pub fn get(&self, key: &str) -> (r: Option<&String>)
        ensures
            r is Some <==> self@.contains_key(key@),
            r matches Some(v) ==> v@ == self@[key@],
    {
        proof {
            use_type_invariant(self);
        }
        match find_pair(&self.entries, key) {
            Some(i) => Some(&self.entries[i].1),
            None => {
                assert(!self@.contains_key(key@)) by {
                    if self@.contains_key(key@) {
                        let i = choose|i: int| 0 <= i < self.entries@.len() && (#[trigger] self.entries@[i]).0@ == key@;
                    }
                }
                None
            },
        }
    }

    /// Records `value` under `key`, replacing what was there.
    pub fn insert(&mut self, key: String, value: String)
        ensures
            final(self)@ == old(self)@.insert(key@, value@),
    {
        proof {
            use_type_invariant(&*self);
        }
        let ghost m = self.model@;
        let ghost k = key@;
        let ghost v = value@;
        let mut taken = NameTable::new();
        std::mem::swap(&mut taken, self);
        proof {
            use_type_invariant(&taken);
        }
        let NameTable { entries: mut es, model: _ } = taken;
        let ghost es0 = es@;
        assert(pairs_model(es0, m));
        match find_pair(&es, key.as_str()) {
            Some(i) => {
                es.set(i, (key, value));
                let ghost m2 = m.insert(k, v);
                assert(pairs_model(es@, m2)) by {
                    assert forall|a: int, b: int|
                        0 <= a < es@.len() && 0 <= b < es@.len() && a != b implies (#[trigger] es@[a]).0@
                        != (#[trigger] es@[b]).0@ by {
                        assert(es0[a].0@ != es0[b].0@);
                    }
                    assert forall|j: int| 0 <= j < es@.len() implies m2.contains_key((#[trigger] es@[j]).0@)
                        && m2[es@[j].0@] == es@[j].1@ by {
                        if j != i {
                            assert(es0[j].0@ != es0[i as int].0@);
                        }
                    }
                    assert forall|kk: Seq<char>| m2.contains_key(kk) implies exists|j: int|
                        0 <= j < es@.len() && (#[trigger] es@[j]).0@ == kk by {
                        if kk == k {
                            assert(es@[i as int].0@ == kk);
                        } else {
                            let j = choose|j: int| 0 <= j < es0.len() && (#[trigger] es0[j]).0@ == kk;
                            assert(es@[j].0@ == kk);
                        }
                    }
                }
                *self = NameTable { entries: es, model: Ghost(m2) };
            },
            None => {
                assert(!m.contains_key(k)) by {
                    if m.contains_key(k) {
                        let j = choose|j: int| 0 <= j < es0.len() && (#[trigger] es0[j]).0@ == k;
                    }
                }
                es.push((key, value));
                let ghost m2 = m.insert(k, v);
                assert(pairs_model(es@, m2)) by {
                    assert forall|a: int, b: int|
                        0 <= a < es@.len() && 0 <= b < es@.len() && a != b implies (#[trigger] es@[a]).0@
                        != (#[trigger] es@[b]).0@ by {
                        if a < es0.len() && b < es0.len() {
                            assert(es0[a].0@ != es0[b].0@);
                        } else if a < es0.len() {
                            assert(m.contains_key(es0[a].0@));
                        } else {
                            assert(m.contains_key(es0[b].0@));
                        }
                    }
                    assert forall|j: int| 0 <= j < es@.len() implies m2.contains_key((#[trigger] es@[j]).0@)
                        && m2[es@[j].0@] == es@[j].1@ by {
                        if j < es0.len() {
                            assert(es@[j] == es0[j]);
                            assert(m.contains_key(es0[j].0@));
                        }
                    }
                    assert forall|kk: Seq<char>| m2.contains_key(kk) implies exists|j: int|
                        0 <= j < es@.len() && (#[trigger] es@[j]).0@ == kk by {
                        if kk == k {
                            assert(es@[es0.len() as int].0@ == kk);
                        } else {
                            let j = choose|j: int| 0 <= j < es0.len() && (#[trigger] es0[j]).0@ == kk;
                            assert(es@[j] == es0[j]);
                        }
                    }
                }
                *self = NameTable { entries: es, model: Ghost(m2) };
            },
        }
    }
}

/// The provider a bundle file comes from; a bundle's own files are local.
pub fn file_provider(file: &BundleFile) -> (r: ProviderId)
    ensures
        r == file@.provider(),
{
    match &file.kind {
        FileKind::Managed { provider, .. } => *provider,
        FileKind::External => ProviderId::Local,
    }
}

/// The name a bundle file is listed under: the provider's name for it when
/// that is known and not empty, else its tidied file name.
pub open spec fn file_label(f: BundleFileView, modrinth: Seq<PackageMetaView>, curseforge: Seq<PackageMetaView>) -> Seq<char> {
    let meta = match f.provider() {
        ProviderId::Modrinth => crate::packages::meta_for(modrinth, ProviderId::Modrinth, f.package_id),
        ProviderId::CurseForge => crate::packages::meta_for(curseforge, ProviderId::CurseForge, f.package_id),
        ProviderId::Local => None,
    };
    if meta is Some && meta->0.name.len() > 0 {
        meta->0.name
    } else {
        tidy_name(f.display_name)
    }
}

pub open spec fn files_names(m: Map<Seq<char>, Seq<char>>, fs: Seq<BundleFileView>, mr: Seq<PackageMetaView>, cf: Seq<PackageMetaView>) -> Map<Seq<char>, Seq<char>>
    decreases fs.len(),
{
    if fs.len() == 0 {
        m
    } else {
        files_names(m, fs.drop_last(), mr, cf).insert(fs.last().package_id, file_label(fs.last(), mr, cf))
    }
}

pub open spec fn bundles_names(bs: Seq<BundleView>, mr: Seq<PackageMetaView>, cf: Seq<PackageMetaView>) -> Map<Seq<char>, Seq<char>>
    decreases bs.len(),
{
    if bs.len() == 0 {
        Map::empty()
    } else {
        files_names(bundles_names(bs.drop_last(), mr, cf), bs.last().files, mr, cf)
    }
}

fn meta_name<'a>(metas: &'a [PackageMeta], provider: ProviderId, pid: &str) -> (r: Option<&'a PackageMeta>)
    ensures
        crate::packages::opt_meta_view(r) == crate::packages::meta_for(metas_view(metas@), provider, pid@),
{
    crate::packages::find_meta(metas, provider, pid)
}

/// The names every file of the bundles is shown under, keyed by package id.
/// `modrinth` and `curseforge` are what each provider reports.
pub fn package_names(archives: &[Bundle], modrinth: &[PackageMeta], curseforge: &[PackageMeta]) -> (r: NameTable)
    ensures
        r@ == bundles_names(bundles_view(archives@), metas_view(modrinth@), metas_view(curseforge@)),
{
    let ghost bv = bundles_view(archives@);
    let ghost mr = metas_view(modrinth@);
    let ghost cf = metas_view(curseforge@);
    let mut names = NameTable::new();
    let mut b: usize = 0;
    while b < archives.len()
        invariant
            b <= archives@.len(),
            bv == bundles_view(archives@),
            mr == metas_view(modrinth@),
            cf == metas_view(curseforge@),
            names@ == bundles_names(bv.subrange(0, b as int), mr, cf),
        decreases archives@.len() - b,
    {
        let files = &archives[b].files;
        let ghost fv = files_view(files@);
        let ghost start = names@;
        let mut f: usize = 0;
        while f < files.len()
            invariant
                f <= files@.len(),
                fv == files_view(files@),
                mr == metas_view(modrinth@),
                cf == metas_view(curseforge@),
                names@ == files_names(start, fv.subrange(0, f as int), mr, cf),
            decreases files@.len() - f,
        {
            let file = &files[f];
            assert(fv[f as int] == file@);
            let meta = match file_provider(file) {
                ProviderId::Modrinth => meta_name(modrinth, ProviderId::Modrinth, file.package_id.as_str()),
                ProviderId::CurseForge => meta_name(curseforge, ProviderId::CurseForge, file.package_id.as_str()),
                ProviderId::Local => None,
            };
            let name = match meta {
                Some(m) if m.name.unicode_len() > 0 => m.name.clone(),
                _ => tidy_file_name(file.display_name.as_str()),
            };
            assert(name@ == file_label(file@, mr, cf));
            names.insert(file.package_id.clone(), name);
            assert(fv.subrange(0, f + 1).drop_last() =~= fv.subrange(0, f as int));
            f = f + 1;
        }
        assert(fv.subrange(0, f as int) =~= fv);
        assert(bv.subrange(0, b + 1).drop_last() =~= bv.subrange(0, b as int));
        assert(bv[b as int].files == fv);
        b = b + 1;
    }
    assert(bv.subrange(0, b as int) =~= bv);
    names
}


/// The items of `list` joined by `sep`.
pub open spec fn joined(list: Seq<Seq<char>>, sep: Seq<char>) -> Seq<char>
    decreases list.len(),
{
    if list.len() == 0 {
        Seq::empty()
    } else if list.len() == 1 {
        list[0]
    } else {
        joined(list.drop_last(), sep) + sep + list.last()
    }
}

/// The name a bundle file is shown under in a bundle card: the recorded name,
/// else the tidied file name.
pub open spec fn card_name(f: BundleFileView, names: Map<Seq<char>, Seq<char>>) -> Seq<char> {
    if names.contains_key(f.package_id) {
        names[f.package_id]
    } else {
        tidy_name(f.display_name)
    }
}

/// A file the user sees: enabled and not hidden.
pub open spec fn is_listed(f: BundleFileView) -> bool {
    f.enabled && !f.hidden
}

/// The names of a bundle's listed files, in order.
pub open spec fn listed_names(fs: Seq<BundleFileView>, names: Map<Seq<char>, Seq<char>>) -> Seq<Seq<char>>
    decreases fs.len(),
{
    if fs.len() == 0 {
        Seq::empty()
    } else if is_listed(fs.last()) {
        listed_names(fs.drop_last(), names).push(card_name(fs.last(), names))
    } else {
        listed_names(fs.drop_last(), names)
    }
}

/// The blurb of a bundle card: its first three listed packages, and how many
/// more there are; a bundle that lists none is configuration only.
pub open spec fn blurb_text(fs: Seq<BundleFileView>, names: Map<Seq<char>, Seq<char>>) -> Seq<char> {
    let listed = listed_names(fs, names);
    let head = joined(listed.take(if listed.len() < 3 { listed.len() as int } else { 3 }), ", "@);
    if listed.len() <= 3 {
        if head.len() == 0 {
            "Configuration only."@
        } else {
            head
        }
    } else {
        head + " and "@ + decimal((listed.len() - 3) as nat) + " more"@
    }
}

/// The number of listed files of a bundle.
pub open spec fn listed_count(fs: Seq<BundleFileView>) -> nat
    decreases fs.len(),
{
    if fs.len() == 0 {
        0
    } else {
        listed_count(fs.drop_last()) + if is_listed(fs.last()) { 1nat } else { 0nat }
    }
}

proof fn lemma_listed_len(fs: Seq<BundleFileView>, names: Map<Seq<char>, Seq<char>>)
    ensures
        listed_names(fs, names).len() == listed_count(fs),
        listed_count(fs) <= fs.len(),
    decreases fs.len(),
{
    if fs.len() > 0 {
        lemma_listed_len(fs.drop_last(), names);
    }
}

fn join_names(list: &Vec<String>, sep: &str) -> (r: String)
    ensures
        r@ == joined(crate::domain::strings_view(list@), sep@),
{
    let ghost lv = crate::domain::strings_view(list@);
    let mut r = String::new();
    let mut i: usize = 0;
    while i < list.len()
        invariant
            i <= list@.len(),
            lv == crate::domain::strings_view(list@),
            r@ == joined(lv.take(i as int), sep@),
        decreases list@.len() - i,
    {
        assert(lv.take(i + 1).drop_last() =~= lv.take(i as int));
        assert(lv[i as int] == list@[i as int]@);
        if i == 0 {
            r = list[i].clone();
        } else {
            r.append(sep);
            r.append(list[i].as_str());
        }
        i = i + 1;
    }
    assert(lv.take(i as int) =~= lv);
    r
}

/// The blurb of a bundle's card: its first three listed packages by name,
/// then "and N more"; "Configuration only." when it lists none.
pub fn bundle_blurb(archive: &Bundle, names: &NameTable) -> (r: String)
    ensures
        r@ == blurb_text(archive@.files, names@),
{
    let ghost fv = archive@.files;
    let mut listed: Vec<String> = Vec::new();
    let mut i: usize = 0;
    while i < archive.files.len()
        invariant
            i <= archive.files@.len(),
            fv == archive@.files,
            crate::domain::strings_view(listed@) == listed_names(fv.take(i as int), names@),
        decreases archive.files@.len() - i,
    {
        let file = &archive.files[i];
        assert(fv[i as int] == file@);
        assert(fv.take(i + 1).drop_last() =~= fv.take(i as int));
        if file.enabled && !file.hidden {
            let name = match names.get(file.package_id.as_str()) {
                Some(n) => n.clone(),
                None => tidy_file_name(file.display_name.as_str()),
            };
            let ghost before = listed@;
            listed.push(name);
            proof {
                crate::domain::lemma_strings_view_push(before, name);
            }
        }
        i = i + 1;
    }
    assert(fv.take(i as int) =~= fv);
    let total = listed.len();
    let ghost lv = crate::domain::strings_view(listed@);
    let mut first: Vec<String> = Vec::new();
    let mut k: usize = 0;
    while k < total && k < 3
        invariant
            k <= total,
            k <= 3,
            total == listed@.len(),
            lv == crate::domain::strings_view(listed@),
            crate::domain::strings_view(first@) == lv.take(k as int),
        decreases 3 - k,
    {
        let ghost before = first@;
        first.push(listed[k].clone());
        proof {
            crate::domain::lemma_strings_view_push(before, first@[k as int]);
            assert(lv.take(k + 1) =~= lv.take(k as int).push(lv[k as int]));
        }
        k = k + 1;
    }
    let head = join_names(&first, ", ");
    if total <= 3 {
        if head.unicode_len() == 0 {
            String::from_str("Configuration only.")
        } else {
            head
        }
    } else {
        let rest = decimal_string((total - 3) as u64);
        let mut r = head;
        r.append(" and ");
        r.append(rest.as_str());
        r.append(" more");
        r
    }
}

/// The title of a bundle's card: its category, else its name.
pub open spec fn bundle_title_text(b: BundleView) -> Seq<char> {
    if trimmed(b.category).len() == 0 {
        b.name
    } else {
        trimmed(b.category)
    }
}

/// The title of a bundle's card: its trimmed category, or its name when it has
/// none.
pub fn bundle_title(archive: &Bundle) -> (r: String)
    ensures
        r@ == bundle_title_text(archive@),
{
    let category = trim(archive.category.as_str());
    if category.unicode_len() == 0 {
        archive.name.clone()
    } else {
        String::from_str(category)
    }
}

/// "1 package", or the count and "packages".
pub open spec fn package_count_text(n: nat) -> Seq<char> {
    if n == 1 {
        "1 package"@
    } else {
        decimal(n) + " packages"@
    }
}

/// The package count shown on a bundle's card: the files it lists.
pub fn bundle_package_count(archive: &Bundle) -> (r: String)
    ensures
        r@ == package_count_text(listed_count(archive@.files)),
{
    let ghost fv = archive@.files;
    let mut count: usize = 0;
    let mut i: usize = 0;
    while i < archive.files.len()
        invariant
            i <= archive.files@.len(),
            fv == archive@.files,
            count == listed_count(fv.take(i as int)),
            count <= i,
        decreases archive.files@.len() - i,
    {
        assert(fv[i as int] == archive.files@[i as int]@);
        assert(fv.take(i + 1).drop_last() =~= fv.take(i as int));
        if archive.files[i].enabled && !archive.files[i].hidden {
            count = count + 1;
        }
        i = i + 1;
    }
    assert(fv.take(i as int) =~= fv);
    if count == 1 {
        String::from_str("1 package")
    } else {
        let mut r = decimal_string(count as u64);
        r.append(" packages");
        r
    }
}

} // verus!
