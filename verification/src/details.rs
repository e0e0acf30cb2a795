//! The details form shared by the new-instance wizard and the edit dialog,
//! and the requests the two send.
use vstd::prelude::*;

use crate::domain::{copy_opt, copy_strings, opt_view, strings_contain, strings_view, GameLoader};
use crate::picks::Picks;
use crate::text::{trim, trimmed};
use crate::wizard::{cluster_kind_label, effective_name_text, kind_label_of, ClusterKind};

verus! {

/// What the details form holds.
pub struct DetailsState {
    pub name: String,
    /// The user has confirmed a name of their own.
    pub name_touched: bool,
    pub description: String,
    pub tags: Vec<String>,
    pub tag_draft: String,
    pub tag_open: bool,
    /// A picture picked for the background.
    pub cover: Option<String>,
    /// The user asked for the version art instead of the current background.
    pub cover_cleared: bool,
}

/// The tags after the draft was committed: the trimmed draft is added unless
/// it is blank or already there.
pub open spec fn committed_tags(tags: Seq<Seq<char>>, draft: Seq<char>) -> Seq<Seq<char>> {
    let t = trimmed(draft);
    if t.len() > 0 && !tags.contains(t) {
        tags.push(t)
    } else {
        tags
    }
}

/// The tags without `tag`.
pub open spec fn without_tag(tags: Seq<Seq<char>>, tag: Seq<char>) -> Seq<Seq<char>> {
    tags.filter(|t: Seq<char>| t != tag)
}

/// The background a preview shows: the picked picture (marked as picked),
/// none once the user asked for the version art, else the existing one.
pub open spec fn preview_of(cover: Option<Seq<char>>, cleared: bool, existing: Option<Seq<char>>) -> Option<(Seq<char>, bool)> {
    match cover {
        Some(p) => Some((p, true)),
        None => if cleared {
            None
        } else {
            match existing {
                Some(e) => Some((e, false)),
                None => None,
            }
        },
    }
}

impl DetailsState {
    /// The empty form of the wizard.
    pub fn blank() -> (r: DetailsState)
        ensures
            r.name@.len() == 0,
            !r.name_touched,
            r.description@.len() == 0,
            r.tags@.len() == 0,
            r.tag_draft@.len() == 0,
            !r.tag_open,
            r.cover is None,
            !r.cover_cleared,
    {
        DetailsState {
            name: String::new(),
            name_touched: false,
            description: String::new(),
            tags: Vec::new(),
            tag_draft: String::new(),
            tag_open: false,
            cover: None,
            cover_cleared: false,
        }
    }

    /// The form of the edit dialog, filled from the instance; its name counts
    /// as the user's own.
    pub fn seeded(name: &str, description: Option<&str>, tags: &Vec<String>) -> (r: DetailsState)
        ensures
            r.name@ == name@,
            r.name_touched,
            r.description@ == match description {
                Some(d) => d@,
                None => Seq::<char>::empty(),
            },
            strings_view(r.tags@) == strings_view(tags@),
            r.tag_draft@.len() == 0,
            !r.tag_open,
            r.cover is None,
            !r.cover_cleared,
    {
        DetailsState {
            name: String::from_str(name),
            name_touched: true,
            description: match description {
                Some(d) => String::from_str(d),
                None => String::new(),
            },
            tags: copy_strings(tags),
            tag_draft: String::new(),
            tag_open: false,
            cover: None,
            cover_cleared: false,
        }
    }

    /// The name as typed, trimmed.
    pub fn typed_name(&self) -> (r: String)
        ensures
            r@ == trimmed(self.name@),
    {
        String::from_str(trim(self.name.as_str()))
    }

    /// The instance's name: the typed one once the user confirmed it and it
    /// is not blank, else the suggested one.
    pub fn effective_name(&self, suggested: &str) -> (r: String)
        ensures
            r@ == effective_name_text(self.name_touched, trimmed(self.name@), suggested@),
    {
        let typed = self.typed_name();
        if self.name_touched && typed.unicode_len() > 0 {
            typed
        } else {
            String::from_str(suggested)
        }
    }

    /// The description, trimmed; none while it is blank.
    pub fn description_value(&self) -> (r: Option<String>)
        ensures
            opt_view(r) == (if trimmed(self.description@).len() > 0 {
                Some(trimmed(self.description@))
            } else {
                None
            }),
    {
        let t = trim(self.description.as_str());
        if t.unicode_len() > 0 {
            Some(String::from_str(t))
        } else {
            None
        }
    }

    /// The background the form previews; `existing` is the instance's
    /// current one.
    pub fn preview_cover(&self, existing: Option<&String>) -> (r: Option<(String, bool)>)
        ensures
            match r {
                Some((p, picked)) => preview_of(opt_view(self.cover), self.cover_cleared, match existing {
                    Some(e) => Some(e@),
                    None => None,
                }) == Some((p@, picked)),
                None => preview_of(opt_view(self.cover), self.cover_cleared, match existing {
                    Some(e) => Some(e@),
                    None => None,
                }) is None,
            },
    {
        match &self.cover {
            Some(p) => Some((p.clone(), true)),
            None => if self.cover_cleared {
                None
            } else {
                match existing {
                    Some(e) => Some((e.clone(), false)),
                    None => None,
                }
            },
        }
    }

    /// The user confirmed the name field.
    pub fn confirm_name(&mut self)
        ensures
            final(self).name_touched,
            final(self).name@ == old(self).name@,
            strings_view(final(self).tags@) == strings_view(old(self).tags@),
    {
        self.name_touched = true;
    }

    /// The tag input opens empty.
    pub fn open_tag_input(&mut self)
        ensures
            final(self).tag_open,
            final(self).tag_draft@.len() == 0,
            strings_view(final(self).tags@) == strings_view(old(self).tags@),
    {
        self.tag_draft = String::new();
        self.tag_open = true;
    }

    /// Adds the drafted tag, then closes and empties the tag input.
    pub fn commit_tag(&mut self)
        ensures
            strings_view(final(self).tags@) == committed_tags(strings_view(old(self).tags@), old(self).tag_draft@),
            final(self).tag_draft@.len() == 0,
            !final(self).tag_open,
            final(self).name@ == old(self).name@,
            final(self).name_touched == old(self).name_touched,
            final(self).description@ == old(self).description@,
            opt_view(final(self).cover) == opt_view(old(self).cover),
            final(self).cover_cleared == old(self).cover_cleared,
    {
        let draft = String::from_str(trim(self.tag_draft.as_str()));
        if draft.unicode_len() > 0 && !strings_contain(&self.tags, draft.as_str()) {
            let ghost before = self.tags@;
            let ghost d = draft@;
            self.tags.push(draft);
            proof {
                assert(strings_view(self.tags@) =~= strings_view(before).push(d));
            }
        }
        self.tag_draft = String::new();
        self.tag_open = false;
    }

    /// Removes every copy of `tag`.
    pub fn remove_tag(&mut self, tag: &str)
        ensures
            strings_view(final(self).tags@) == without_tag(strings_view(old(self).tags@), tag@),
            final(self).tag_draft@ == old(self).tag_draft@,
            final(self).tag_open == old(self).tag_open,
            final(self).name@ == old(self).name@,
            final(self).name_touched == old(self).name_touched,
            final(self).description@ == old(self).description@,
            opt_view(final(self).cover) == opt_view(old(self).cover),
            final(self).cover_cleared == old(self).cover_cleared,
    {
        let ghost tv = strings_view(self.tags@);
        let mut next: Vec<String> = Vec::new();
        let mut i: usize = 0;
        while i < self.tags.len()
            invariant
                i <= self.tags@.len(),
                tv == strings_view(self.tags@),
                strings_view(next@) == without_tag(tv.take(i as int), tag@),
            decreases self.tags@.len() - i,
        {
            proof {
                crate::text::lemma_filter_step(tv, i as int, |t: Seq<char>| t != tag@);
                assert(tv.take(i as int) =~= tv.subrange(0, i as int));
                assert(tv.take(i + 1) =~= tv.subrange(0, i + 1));
                assert(tv[i as int] == self.tags@[i as int]@);
            }
            if !crate::text::str_eq(self.tags[i].as_str(), tag) {
                let ghost before = next@;
                let c = self.tags[i].clone();
                next.push(c);
                proof {
                    crate::domain::lemma_strings_view_push(before, c);
                }
            }
            i = i + 1;
        }
        assert(tv.take(i as int) =~= tv);
        self.tags = next;
    }

    /// A picture was picked for the background.
    pub fn pick_cover(&mut self, path: String)
        ensures
            opt_view(final(self).cover) == Some(path@),
            !final(self).cover_cleared,
            strings_view(final(self).tags@) == strings_view(old(self).tags@),
    {
        self.cover = Some(path);
        self.cover_cleared = false;
    }

    /// The user asked for the version art as the background.
    pub fn use_version_art(&mut self)
        ensures
            final(self).cover is None,
            final(self).cover_cleared,
            strings_view(final(self).tags@) == strings_view(old(self).tags@),
    {
        self.cover = None;
        self.cover_cleared = true;
    }
}

/// Committing a tag that is not there yet and then removing it gives back the
/// tags as they were.
pub proof fn law_commit_then_remove(tags: Seq<Seq<char>>, draft: Seq<char>)
    requires
        !tags.contains(trimmed(draft)),
    ensures
        without_tag(committed_tags(tags, draft), trimmed(draft)) == tags,
{
    let t = trimmed(draft);
    lemma_filter_absent(tags, t);
    if t.len() > 0 {
        let p = tags.push(t);
        reveal_with_fuel(Seq::<_>::filter, 1);
        assert(p.drop_last() =~= tags);
        assert(without_tag(p, t) == without_tag(tags, t));
    }
}

proof fn lemma_filter_absent(tags: Seq<Seq<char>>, t: Seq<char>)
    requires
        !tags.contains(t),
    ensures
        without_tag(tags, t) == tags,
    decreases tags.len(),
{
    reveal_with_fuel(Seq::<_>::filter, 1);
    if tags.len() > 0 {
        assert(!tags.drop_last().contains(t)) by {
            if tags.drop_last().contains(t) {
                let k = choose|k: int| 0 <= k < tags.drop_last().len() && tags.drop_last()[k] == t;
                assert(tags[k] == t);
            }
        }
        lemma_filter_absent(tags.drop_last(), t);
        assert(tags.last() != t) by {
            assert(tags[tags.len() - 1] == tags.last());
        }
        assert(tags.drop_last().push(tags.last()) =~= tags);
    } else {
        assert(without_tag(tags, t) =~= tags);
    }
}

/// Committing the same draft a second time changes nothing: a tag is never
/// listed twice by committing.
pub proof fn law_commit_idempotent(tags: Seq<Seq<char>>, draft: Seq<char>)
    ensures
        committed_tags(committed_tags(tags, draft), draft) == committed_tags(tags, draft),
{
    let t = trimmed(draft);
    if t.len() > 0 && !tags.contains(t) {
        assert(tags.push(t)[tags.len() as int] == t);
    }
}

/// Committing keeps the tags free of repeats.
pub proof fn law_commit_keeps_tags_distinct(tags: Seq<Seq<char>>, draft: Seq<char>)
    requires
        tags.no_duplicates(),
    ensures
        committed_tags(tags, draft).no_duplicates(),
{
    let t = trimmed(draft);
    if t.len() > 0 && !tags.contains(t) {
        let p = tags.push(t);
        assert forall|i: int, j: int| 0 <= i < p.len() && 0 <= j < p.len() && i != j implies p[i] != p[j] by {
            if i < tags.len() && j < tags.len() {
            } else if i == tags.len() {
                assert(p[j] == tags[j]);
            } else {
                assert(p[i] == tags[i]);
            }
        }
    }
}

/// After asking for the version art, the preview shows no background,
/// whatever the instance had; after picking a picture, it shows that one.
pub proof fn law_cover_choice_wins(existing: Option<Seq<char>>, path: Seq<char>)
    ensures
        preview_of(None, true, existing) is None,
        preview_of(Some(path), false, existing) == Some((path, true)),
{
}

/// The request that creates an instance.
pub struct CreateRequest {
    pub kind: ClusterKind,
    pub name: String,
    pub mc_version: String,
    pub mc_loader: GameLoader,
    pub mc_loader_version: Option<String>,
    pub description: Option<String>,
    pub tags: Vec<String>,
    pub cover_source: Option<String>,
    /// The bundles to install, for a OneClient instance once they are known.
    pub bundles: Option<Vec<String>>,
}

/// The request the wizard sends: none until a version and a loader are
/// settled.
pub fn create_action(details: &DetailsState, picks: &Picks) -> (r: Option<CreateRequest>)
    ensures
        r is Some <==> (picks.versions.chosen is Some && picks.loader.chosen is Some),
        r matches Some(req) ==> {
            &&& req.kind == picks.kind
            &&& req.name@ == trimmed(picks.name@)
            &&& Some(req.mc_version@) == opt_view(picks.versions.chosen)
            &&& Some(req.mc_loader) == picks.loader.chosen
            &&& opt_view(req.mc_loader_version) == opt_view(picks.loader.version)
            &&& opt_view(req.description) == (if trimmed(details.description@).len() > 0 {
                Some(trimmed(details.description@))
            } else {
                None
            })
            &&& strings_view(req.tags@) == strings_view(details.tags@)
            &&& opt_view(req.cover_source) == opt_view(details.cover)
            &&& match req.bundles {
                Some(b) => picks.kind == ClusterKind::OneClient && picks.bundles.loaded && strings_view(b@)
                    == crate::picks::taken_names(
                    crate::domain::bundles_view(picks.bundles.archives@),
                    strings_view(picks.bundles.declined@),
                ),
                None => !(picks.kind == ClusterKind::OneClient && picks.bundles.loaded),
            }
        },
{
    let mc_version = match &picks.versions.chosen {
        Some(v) => v.clone(),
        None => return None,
    };
    let mc_loader = match picks.loader.chosen {
        Some(l) => l,
        None => return None,
    };
    let bundles = if picks.kind == ClusterKind::OneClient && picks.bundles.loaded {
        Some(picks.bundles.taken())
    } else {
        None
    };
    Some(CreateRequest {
        kind: picks.kind,
        name: String::from_str(trim(picks.name.as_str())),
        mc_version,
        mc_loader,
        mc_loader_version: copy_opt(&picks.loader.version),
        description: details.description_value(),
        tags: copy_strings(&details.tags),
        cover_source: copy_opt(&details.cover),
        bundles,
    })
}

/// What the edit dialog knows of the instance.
pub struct InstanceFacts {
    pub cluster_id: i64,
    pub name: String,
    pub description: Option<String>,
    pub tags: Vec<String>,
    pub cover: Option<String>,
    pub mc_version: String,
    pub mc_loader: GameLoader,
    pub kind: ClusterKind,
}

/// The request the edit dialog sends.
pub struct UpdateRequest {
    pub cluster_id: i64,
    pub name: String,
    pub description: Option<String>,
    pub tags: Vec<String>,
    pub cover_source: Option<String>,
    pub clear_cover: bool,
}

pub fn update_action(cluster_id: i64, details: &DetailsState) -> (r: UpdateRequest)
    ensures
        r.cluster_id == cluster_id,
        r.name@ == trimmed(details.name@),
        opt_view(r.description) == (if trimmed(details.description@).len() > 0 {
            Some(trimmed(details.description@))
        } else {
            None
        }),
        strings_view(r.tags@) == strings_view(details.tags@),
        opt_view(r.cover_source) == opt_view(details.cover),
        r.clear_cover == details.cover_cleared,
{
    UpdateRequest {
        cluster_id,
        name: details.typed_name(),
        description: details.description_value(),
        tags: copy_strings(&details.tags),
        cover_source: copy_opt(&details.cover),
        clear_cover: details.cover_cleared,
    }
}

/// The edit dialog's rail: its title (the typed name, or the instance's while
/// the field is blank), its subtitle (the description, or the kind and
/// version), and whether it can be saved (a name is typed).
pub struct EditRail {
    pub title: String,
    pub subtitle: String,
    pub can_save: bool,
}

pub fn edit_rail(facts: &InstanceFacts, details: &DetailsState) -> (r: EditRail)
    ensures
        r.title@ == (if trimmed(details.name@).len() == 0 {
            facts.name@
        } else {
            trimmed(details.name@)
        }),
        r.subtitle@ == (if trimmed(details.description@).len() == 0 {
            cluster_kind_label(facts.kind) + " · "@ + facts.mc_version@
        } else {
            trimmed(details.description@)
        }),
        r.can_save == (trimmed(details.name@).len() > 0),
{
    let typed = details.typed_name();
    let description = trim(details.description.as_str());
    let subtitle = if description.unicode_len() == 0 {
        crate::text::join3(kind_label_of(facts.kind), " · ", facts.mc_version.as_str())
    } else {
        String::from_str(description)
    };
    let can_save = typed.unicode_len() > 0;
    let title = if typed.unicode_len() == 0 {
        facts.name.clone()
    } else {
        typed
    };
    EditRail { title, subtitle, can_save }
}

/// The facts card of the edit dialog: type, version and loader.
pub fn edit_facts(facts: &InstanceFacts) -> (r: Vec<(&'static str, String)>)
    ensures
        r@.len() == 3,
        r@[0].0@ == "Type"@ && r@[0].1@ == cluster_kind_label(facts.kind),
        r@[1].0@ == "Version"@ && r@[1].1@ == facts.mc_version@,
        r@[2].0@ == "Loader"@ && r@[2].1@ == facts.mc_loader.spec_label(),
{
    let mut rows: Vec<(&'static str, String)> = Vec::new();
    rows.push(("Type", String::from_str(kind_label_of(facts.kind))));
    rows.push(("Version", facts.mc_version.clone()));
    let loader = if facts.mc_loader == GameLoader::Vanilla {
        String::from_str("Vanilla")
    } else {
        String::from_str(facts.mc_loader.label())
    };
    rows.push(("Loader", loader));
    rows
}

/// The tags as the plain edit dialog shows them: joined by ", ".
pub open spec fn joined_tags(tags: Seq<Seq<char>>) -> Seq<char>
    decreases tags.len(),
{
    if tags.len() == 0 {
        Seq::empty()
    } else if tags.len() == 1 {
        tags[0]
    } else {
        joined_tags(tags.drop_last()) + ", "@ + tags.last()
    }
}

pub fn join_tags(tags: &Vec<String>) -> (r: String)
    ensures
        r@ == joined_tags(strings_view(tags@)),
{
    let ghost tv = strings_view(tags@);
    let mut r = String::new();
    let mut i: usize = 0;
    while i < tags.len()
        invariant
            i <= tags@.len(),
            tv == strings_view(tags@),
            r@ == joined_tags(tv.take(i as int)),
        decreases tags@.len() - i,
    {
        assert(tv.take(i + 1).drop_last() =~= tv.take(i as int));
        assert(tv.take(i + 1).last() == tags@[i as int]@);
        if i > 0 {
            r.append(", ");
        } else {
            assert(tv.take(1)[0] == tags@[0]@);
        }
        r.append(tags[i].as_str());
        i = i + 1;
    }
    assert(tv.take(i as int) =~= tv);
    r
}

/// The items of `s` without repeats, each at its first place.
pub open spec fn first_occurrences(s: Seq<Seq<char>>) -> Seq<Seq<char>>
    decreases s.len(),
{
    if s.len() == 0 {
        Seq::empty()
    } else {
        let before = first_occurrences(s.drop_last());
        if before.contains(s.last()) {
            before
        } else {
            before.push(s.last())
        }
    }
}

/// A tag that the tag field gives back as it is: not blank, without
/// surrounding white space, and without a comma.
pub open spec fn clean_tag(t: Seq<char>) -> bool {
    t.len() > 0 && trimmed(t) == t && !t.contains(',')
}

/// What `str::split(',')` cuts the joined tags into: the first tag, then
/// each later one behind the space of its separator.
spec fn joined_pieces(tags: Seq<Seq<char>>) -> Seq<Seq<char>> {
    Seq::new(tags.len(), |i: int| if i == 0 { tags[0] } else { " "@ + tags[i] })
}

proof fn lemma_split_joined(tags: Seq<Seq<char>>)
    requires
        tags.len() >= 1,
        forall|i: int| 0 <= i < tags.len() ==> !(#[trigger] tags[i]).contains(','),
    ensures
        crate::debug::split_commas(joined_tags(tags)) == joined_pieces(tags),
    decreases tags.len(),
{
    reveal_strlit(" ");
    reveal_strlit(", ");
    if tags.len() == 1 {
        crate::debug::lemma_split_append_plain(Seq::empty(), tags[0]);
        assert(Seq::<char>::empty() + tags[0] =~= tags[0]);
        assert(crate::debug::split_commas(joined_tags(tags)) =~= joined_pieces(tags));
    } else {
        let init = tags.drop_last();
        let t = tags.last();
        assert forall|i: int| 0 <= i < init.len() implies !(#[trigger] init[i]).contains(',') by {
            assert(init[i] == tags[i]);
        }
        lemma_split_joined(init);
        let j = joined_tags(init);
        assert(!t.contains(',')) by {
            assert(tags[tags.len() - 1] == t);
        }
        let tail = " "@ + t;
        assert(!tail.contains(',')) by {
            if tail.contains(',') {
                let k = choose|k: int| 0 <= k < tail.len() && tail[k] == ',';
                if k > 0 {
                    assert(t[k - 1] == ',');
                }
            }
        }
        assert(j + ", "@ + t =~= j.push(',') + tail);
        assert(j.push(',').drop_last() =~= j);
        crate::debug::lemma_split_nonempty(j);
        crate::debug::lemma_split_append_plain(j.push(','), tail);
        let sp = crate::debug::split_commas(j.push(','));
        assert(sp =~= joined_pieces(init).push(Seq::empty()));
        assert(Seq::<char>::empty() + tail =~= tail);
        assert(crate::debug::split_commas(joined_tags(tags)) =~= joined_pieces(tags));
    }
}

proof fn lemma_trim_spaced(t: Seq<char>)
    requires
        clean_tag(t),
    ensures
        trimmed(" "@ + t) == t,
{
    reveal_strlit(" ");
    let s = " "@ + t;
    assert(s[0] == ' ');
    assert(s.drop_first() =~= t);
    assert(crate::text::trim_start(s) == crate::text::trim_start(t));
}

proof fn lemma_filter_keeps_all(s: Seq<Seq<char>>)
    requires
        forall|i: int| 0 <= i < s.len() ==> (#[trigger] s[i]).len() > 0,
    ensures
        s.filter(|p: Seq<char>| p.len() > 0) == s,
    decreases s.len(),
{
    reveal_with_fuel(Seq::<_>::filter, 1);
    if s.len() > 0 {
        let init = s.drop_last();
        assert forall|i: int| 0 <= i < init.len() implies (#[trigger] init[i]).len() > 0 by {
            assert(init[i] == s[i]);
        }
        lemma_filter_keeps_all(init);
        assert(s[s.len() - 1].len() > 0);
        assert(init.push(s.last()) =~= s);
    }
}

proof fn lemma_first_occurrences_distinct(s: Seq<Seq<char>>)
    requires
        s.no_duplicates(),
    ensures
        first_occurrences(s) == s,
    decreases s.len(),
{
    if s.len() > 0 {
        let init = s.drop_last();
        assert(init.no_duplicates()) by {
            assert forall|i: int, j: int| 0 <= i < init.len() && 0 <= j < init.len() && i != j implies init[i]
                != init[j] by {
                assert(init[i] == s[i] && init[j] == s[j]);
            }
        }
        lemma_first_occurrences_distinct(init);
        assert(!init.contains(s.last())) by {
            if init.contains(s.last()) {
                let k = choose|k: int| 0 <= k < init.len() && init[k] == s.last();
                assert(s[k] == s[s.len() - 1]);
            }
        }
        assert(init.push(s.last()) =~= s);
    }
}

/// Saving the plain edit dialog with the tag field as it was opened gives
/// back the same tags, when each tag is clean and no tag repeats.
pub proof fn law_tags_round_trip(tags: Seq<Seq<char>>)
    requires
        forall|i: int| 0 <= i < tags.len() ==> clean_tag(#[trigger] tags[i]),
        tags.no_duplicates(),
    ensures
        first_occurrences(crate::debug::csv_items(joined_tags(tags))) == tags,
{
    let items = crate::debug::csv_items(joined_tags(tags));
    if tags.len() == 0 {
        let e: Seq<char> = Seq::empty();
        assert(joined_tags(tags) == e);
        assert(crate::debug::split_commas(e) == seq![e]);
        assert(trimmed(e) == e);
        let m = seq![e].map_values(|p: Seq<char>| trimmed(p));
        assert(m =~= seq![e]);
        reveal_with_fuel(Seq::<_>::filter, 2);
        assert(seq![e].drop_last() =~= Seq::<Seq<char>>::empty());
        assert(items =~= Seq::<Seq<char>>::empty());
    } else {
        assert forall|i: int| 0 <= i < tags.len() implies !(#[trigger] tags[i]).contains(',') by {
            assert(clean_tag(tags[i]));
        }
        lemma_split_joined(tags);
        let pieces = joined_pieces(tags);
        let m = pieces.map_values(|p: Seq<char>| trimmed(p));
        assert forall|i: int| 0 <= i < tags.len() implies m[i] == tags[i] by {
            assert(clean_tag(tags[i]));
            if i > 0 {
                lemma_trim_spaced(tags[i]);
            }
        }
        assert(m =~= tags);
        assert forall|i: int| 0 <= i < tags.len() implies (#[trigger] tags[i]).len() > 0 by {
            assert(clean_tag(tags[i]));
        }
        lemma_filter_keeps_all(tags);
        assert(items == tags);
    }
    lemma_first_occurrences_distinct(tags);
}

proof fn lemma_first_occurrences_from(s: Seq<Seq<char>>)
    ensures
        first_occurrences(s).no_duplicates(),
        forall|x: Seq<char>| #[trigger] first_occurrences(s).contains(x) ==> s.contains(x),
    decreases s.len(),
{
    if s.len() > 0 {
        let init = s.drop_last();
        lemma_first_occurrences_from(init);
        let before = first_occurrences(init);
        assert forall|x: Seq<char>| #[trigger] first_occurrences(s).contains(x) implies s.contains(x) by {
            if before.contains(x) {
                let k = choose|k: int| 0 <= k < init.len() && init[k] == x;
                assert(s[k] == x);
            } else {
                assert(s[s.len() - 1] == s.last());
                let out = first_occurrences(s);
                let q = choose|q: int| 0 <= q < out.len() && out[q] == x;
                if q < before.len() {
                    assert(before[q] == x);
                }
            }
        }
        if !before.contains(s.last()) {
            let out = before.push(s.last());
            assert forall|a: int, b: int| 0 <= a < out.len() && 0 <= b < out.len() && a != b implies out[a]
                != out[b] by {
                if a == before.len() {
                    if out[a] == out[b] {
                        assert(before[b] == s.last());
                    }
                } else if b == before.len() {
                    if out[a] == out[b] {
                        assert(before[a] == s.last());
                    }
                }
            }
        }
    }
}

/// Whatever is typed, the parsed tags are clean (not blank, without
/// surrounding white space or a comma) and none repeats.
pub proof fn law_parsed_tags_clean(raw: Seq<char>)
    ensures
        first_occurrences(crate::debug::csv_items(raw)).no_duplicates(),
        forall|i: int|
            0 <= i < first_occurrences(crate::debug::csv_items(raw)).len() ==> clean_tag(
                #[trigger] first_occurrences(crate::debug::csv_items(raw))[i],
            ),
{
    let pieces = crate::debug::split_commas(raw);
    let m = pieces.map_values(|p: Seq<char>| trimmed(p));
    let pred = |p: Seq<char>| p.len() > 0;
    let items = crate::debug::csv_items(raw);
    assert(items == m.filter(pred));
    crate::debug::lemma_split_pieces_plain(raw);
    lemma_first_occurrences_from(items);
    let out = first_occurrences(items);
    assert forall|i: int| 0 <= i < out.len() implies clean_tag(#[trigger] out[i]) by {
        let t = out[i];
        assert(out.contains(t));
        assert(items.contains(t));
        let q = choose|q: int| 0 <= q < items.len() && items[q] == t;
        m.lemma_filter_pred(pred, q);
        m.lemma_filter_contains_rev(pred, t);
        let j = choose|j: int| 0 <= j < m.len() && m[j] == t;
        let p = pieces[j];
        assert(t == trimmed(p));
        assert(!p.contains(','));
        crate::text::lemma_trimmed_shape(p);
        let (a, b) = choose|a: int, b: int| 0 <= a <= b <= p.len() && trimmed(p) == #[trigger] p.subrange(a, b);
        assert(!t.contains(',')) by {
            if t.contains(',') {
                let k = choose|k: int| 0 <= k < t.len() && t[k] == ',';
                assert(p[a + k] == ',');
            }
        }
    }
}

/// The tags typed into the plain edit dialog: the comma-separated items,
/// trimmed, without blanks and repeats.
pub fn parse_tags(raw: &str) -> (r: Vec<String>)
    ensures
        strings_view(r@) == first_occurrences(crate::debug::csv_items(raw@)),
{
    let items = crate::debug::split_csv(raw);
    let ghost iv = strings_view(items@);
    let mut out: Vec<String> = Vec::new();
    let mut i: usize = 0;
    while i < items.len()
        invariant
            i <= items@.len(),
            iv == strings_view(items@),
            strings_view(out@) == first_occurrences(iv.take(i as int)),
        decreases items@.len() - i,
    {
        assert(iv.take(i + 1).drop_last() =~= iv.take(i as int));
        assert(iv.take(i + 1).last() == items@[i as int]@);
        if !strings_contain(&out, items[i].as_str()) {
            let ghost before = out@;
            let c = items[i].clone();
            out.push(c);
            proof {
                crate::domain::lemma_strings_view_push(before, c);
            }
        }
        i = i + 1;
    }
    assert(iv.take(i as int) =~= iv);
    out
}

/// The cover the plain edit dialog previews: none once removed, else the
/// picked picture (marked as picked), else the existing one.
pub fn plain_preview(picked: Option<&String>, cleared: bool, existing: Option<&String>) -> (r: Option<(String, bool)>)
    ensures
        match r {
            None => cleared || (picked is None && existing is None),
            Some((p, from_disk)) => !cleared && match picked {
                Some(x) => from_disk && p@ == x@,
                None => !from_disk && (existing matches Some(e) && p@ == e@),
            },
        },
{
    if cleared {
        return None;
    }
    match picked {
        Some(p) => Some((p.clone(), true)),
        None => match existing {
            Some(e) => Some((e.clone(), false)),
            None => None,
        },
    }
}

/// The question before an instance is deleted.
pub fn delete_prompt(name: &str) -> (r: String)
    ensures
        r@ == name@
            + " and its files will be deleted, including its worlds, settings and installed content. This cannot be undone."@,
{
    crate::text::join2(
        name,
        " and its files will be deleted, including its worlds, settings and installed content. This cannot be undone.",
    )
}

/// The active instance after one was deleted: none if it was the deleted one.
pub fn active_after_delete(active: Option<i64>, deleted: i64) -> (r: Option<i64>)
    ensures
        r == (if active == Some(deleted) {
            None
        } else {
            active
        }),
{
    match active {
        Some(a) => if a == deleted {
            None
        } else {
            Some(a)
        },
        None => None,
    }
}

} // verus!
