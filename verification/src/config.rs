//! The layered configuration-resolution engine: a raw configuration holds
//! one default styling record, an ordered list of group assignments and a
//! list of per-property overrides; building merges them attribute-wise
//! into one accumulated partial record per property, and a query resolves
//! a property name to a fully populated styling record, falling back to
//! the default for every attribute nothing touched.

use crate::color::Color;
use vstd::prelude::*;

verus! {

/// The mathematical form of a resolved styling record.
pub ghost struct PropertyConfigView {
    pub name_color: Color,
    pub separator: Seq<char>,
    pub separator_color: Color,
    pub value_color: Color,
}

/// The mathematical form of a partial styling record: `None` means
/// "inherit".
pub ghost struct OptionPropertyConfigView {
    pub name_color: Option<Color>,
    pub separator: Option<Seq<char>>,
    pub separator_color: Option<Color>,
    pub value_color: Option<Color>,
}

/// The mathematical form of a group assignment: a partial styling record
/// and the names of the member properties it applies to.
pub ghost struct GroupConfigView {
    pub partial: OptionPropertyConfigView,
    pub properties: Seq<Seq<char>>,
}

/// The mathematical form of a raw configuration.
pub ghost struct RawConfigView {
    pub default: PropertyConfigView,
    pub groups: Seq<(Seq<char>, GroupConfigView)>,
    pub overrides: Seq<(Seq<char>, OptionPropertyConfigView)>,
}

/// A fully resolved styling record: every attribute is present.
#[derive(Debug, Clone, PartialEq, Eq)]
pub struct PropertyConfig {
    pub name_color: Color,
    pub separator: String,
    pub separator_color: Color,
    pub value_color: Color,
}

impl View for PropertyConfig {
    type V = PropertyConfigView;

    open spec fn view(&self) -> PropertyConfigView {
        PropertyConfigView {
            name_color: self.name_color,
            separator: self.separator@,
            separator_color: self.separator_color,
            value_color: self.value_color,
        }
    }
}

/// A partial styling record, used while authoring and merging: a present
/// attribute overrides, an absent one inherits.
#[derive(Debug, Clone, PartialEq, Eq)]
pub struct OptionPropertyConfig {
    pub name_color: Option<Color>,
    pub separator: Option<String>,
    pub separator_color: Option<Color>,
    pub value_color: Option<Color>,
}

/// The view of an optional separator text.
pub open spec fn view_opt_string(o: Option<String>) -> Option<Seq<char>> {
    match o {
        Some(s) => Some(s@),
        None => None,
    }
}

impl View for OptionPropertyConfig {
    type V = OptionPropertyConfigView;

    open spec fn view(&self) -> OptionPropertyConfigView {
        OptionPropertyConfigView {
            name_color: self.name_color,
            separator: view_opt_string(self.separator),
            separator_color: self.separator_color,
            value_color: self.value_color,
        }
    }
}

/// A group assignment: a partial styling record shared by every property
/// in the member list.
#[derive(Debug, Clone, PartialEq, Eq)]
pub struct GroupConfig {
    pub name_color: Option<Color>,
    pub separator: Option<String>,
    pub separator_color: Option<Color>,
    pub value_color: Option<Color>,
    pub properties: Vec<String>,
}

impl View for GroupConfig {
    type V = GroupConfigView;

    open spec fn view(&self) -> GroupConfigView {
        GroupConfigView {
            partial: OptionPropertyConfigView {
                name_color: self.name_color,
                separator: view_opt_string(self.separator),
                separator_color: self.separator_color,
                value_color: self.value_color,
            },
            properties: self.properties@.map_values(|s: String| s@),
        }
    }
}

impl Default for OptionPropertyConfig {
    /// The partial record that overrides nothing.
    fn default() -> (r: Self)
        ensures
            r@ == empty_partial(),
    {
        OptionPropertyConfig {
            name_color: None,
            separator: None,
            separator_color: None,
            value_color: None,
        }
    }
}

impl Default for GroupConfig {
    /// The group that overrides nothing and has no members.
    fn default() -> (r: Self)
        ensures
            r@.partial == empty_partial(),
            r@.properties == Seq::<Seq<char>>::empty(),
    {
        let r = GroupConfig {
            name_color: None,
            separator: None,
            separator_color: None,
            value_color: None,
            properties: Vec::new(),
        };
        proof {
            assert(r@.properties =~= Seq::<Seq<char>>::empty());
        }
        r
    }
}

/// A raw, human-authored configuration: the default record, group
/// assignments in the order they are applied, and per-property overrides
/// applied after all groups.
#[derive(Debug, Clone, PartialEq, Eq)]
pub struct RawConfig {
    pub default: PropertyConfig,
    pub groups: Vec<(String, GroupConfig)>,
    pub overrides: Vec<(String, OptionPropertyConfig)>,
}

impl View for RawConfig {
    type V = RawConfigView;

    open spec fn view(&self) -> RawConfigView {
        RawConfigView {
            default: self.default@,
            groups: pairs_group_view(self.groups@),
            overrides: pairs_view(self.overrides@),
        }
    }
}

/// The partial record with every attribute absent.
pub open spec fn empty_partial() -> OptionPropertyConfigView {
    OptionPropertyConfigView {
        name_color: None,
        separator: None,
        separator_color: None,
        value_color: None,
    }
}

/// Attribute-wise merge: a present attribute of `inc` overwrites the
/// accumulated one; an absent attribute leaves it untouched.
pub open spec fn merge_partial(
    acc: OptionPropertyConfigView,
    inc: OptionPropertyConfigView,
) -> OptionPropertyConfigView {
    OptionPropertyConfigView {
        name_color: if inc.name_color is Some {
            inc.name_color
        } else {
            acc.name_color
        },
        separator: if inc.separator is Some {
            inc.separator
        } else {
            acc.separator
        },
        separator_color: if inc.separator_color is Some {
            inc.separator_color
        } else {
            acc.separator_color
        },
        value_color: if inc.value_color is Some {
            inc.value_color
        } else {
            acc.value_color
        },
    }
}

/// The accumulated partial record for `k`, or the empty one where the
/// map has no entry.
pub open spec fn accum_get(
    m: Map<Seq<char>, OptionPropertyConfigView>,
    k: Seq<char>,
) -> OptionPropertyConfigView {
    if m.contains_key(k) {
        m[k]
    } else {
        empty_partial()
    }
}

/// One merge step: `v` is merged attribute-wise into the accumulated
/// record for `k`.
pub open spec fn apply_pair(
    m: Map<Seq<char>, OptionPropertyConfigView>,
    k: Seq<char>,
    v: OptionPropertyConfigView,
) -> Map<Seq<char>, OptionPropertyConfigView> {
    m.insert(k, merge_partial(accum_get(m, k), v))
}

/// Merge a sequence of (property, partial record) pairs in order.
pub open spec fn apply_pairs(
    m: Map<Seq<char>, OptionPropertyConfigView>,
    ps: Seq<(Seq<char>, OptionPropertyConfigView)>,
) -> Map<Seq<char>, OptionPropertyConfigView>
    decreases ps.len(),
{
    if ps.len() == 0 {
        m
    } else {
        apply_pairs(apply_pair(m, ps[0].0, ps[0].1), ps.drop_first())
    }
}

/// The pairs a group contributes: its partial record, once per member
/// property, in member-list order.
pub open spec fn group_pairs(g: GroupConfigView) -> Seq<(Seq<char>, OptionPropertyConfigView)> {
    g.properties.map_values(|p: Seq<char>| (p, g.partial))
}

/// Apply the groups in order, each merging its partial record into every
/// member property.
pub open spec fn apply_groups(
    m: Map<Seq<char>, OptionPropertyConfigView>,
    gs: Seq<(Seq<char>, GroupConfigView)>,
) -> Map<Seq<char>, OptionPropertyConfigView>
    decreases gs.len(),
{
    if gs.len() == 0 {
        m
    } else {
        apply_groups(apply_pairs(m, group_pairs(gs[0].1)), gs.drop_first())
    }
}

/// The accumulated property map of a raw configuration: all groups in
/// order, then all overrides in order.
pub open spec fn resolved_map(raw: RawConfigView) -> Map<Seq<char>, OptionPropertyConfigView> {
    apply_pairs(apply_groups(Map::empty(), raw.groups), raw.overrides)
}

/// Resolve a partial record against the default: a present attribute is
/// used, an absent one falls back to the default's attribute.
pub open spec fn resolve_record(
    default: PropertyConfigView,
    p: OptionPropertyConfigView,
) -> PropertyConfigView {
    PropertyConfigView {
        name_color: match p.name_color {
            Some(c) => c,
            None => default.name_color,
        },
        separator: match p.separator {
            Some(s) => s,
            None => default.separator,
        },
        separator_color: match p.separator_color {
            Some(c) => c,
            None => default.separator_color,
        },
        value_color: match p.value_color {
            Some(c) => c,
            None => default.value_color,
        },
    }
}

/// The mathematical form of a built engine.
pub ghost struct ConfigView {
    pub default: PropertyConfigView,
    pub properties: Map<Seq<char>, OptionPropertyConfigView>,
}

/// What a query returns: the accumulated partial record for the name,
/// resolved against the default; a name with no entry resolves to the
/// default verbatim.
pub open spec fn spec_get(c: ConfigView, k: Seq<char>) -> PropertyConfigView {
    resolve_record(c.default, accum_get(c.properties, k))
}

/// The map an association list denotes, later entries over earlier ones.
pub open spec fn assoc_map(
    s: Seq<(Seq<char>, OptionPropertyConfigView)>,
) -> Map<Seq<char>, OptionPropertyConfigView>
    decreases s.len(),
{
    if s.len() == 0 {
        Map::empty()
    } else {
        assoc_map(s.drop_last()).insert(s.last().0, s.last().1)
    }
}

/// The built, query-ready engine: the retained default record and the
/// accumulated per-property partial records.
#[derive(Debug, Clone)]
pub struct Config {
    default: PropertyConfig,
    properties: Vec<(String, OptionPropertyConfig)>,
}

impl View for Config {
    type V = ConfigView;

    closed spec fn view(&self) -> ConfigView {
        ConfigView { default: self.default@, properties: assoc_map(pairs_view(self.properties@)) }
    }
}

/// The key-to-partial-record pairs an executable association list stands
/// for.
pub open spec fn pairs_view(s: Seq<(String, OptionPropertyConfig)>) -> Seq<
    (Seq<char>, OptionPropertyConfigView),
> {
    s.map_values(|p: (String, OptionPropertyConfig)| (p.0@, p.1@))
}

/// Whether the keys of an association list are pairwise distinct.
spec fn wf_keys(s: Seq<(Seq<char>, OptionPropertyConfigView)>) -> bool {
    forall|i: int, j: int| 0 <= i < j < s.len() ==> (#[trigger] s[i]).0 != (#[trigger] s[j]).0
}

/// An association list has an entry for a key exactly when its map does.
proof fn lemma_assoc_contains(s: Seq<(Seq<char>, OptionPropertyConfigView)>, k: Seq<char>)
    ensures
        assoc_map(s).contains_key(k) <==> (exists|i: int| 0 <= i < s.len() && (#[trigger] s[i]).0 == k),
    decreases s.len(),
{
    if s.len() > 0 {
        lemma_assoc_contains(s.drop_last(), k);
        if s.last().0 == k {
            assert(s[s.len() - 1].0 == k);
        } else {
            if exists|i: int| 0 <= i < s.len() && (#[trigger] s[i]).0 == k {
                let i = choose|i: int| 0 <= i < s.len() && (#[trigger] s[i]).0 == k;
                assert(s.drop_last()[i] == s[i]);
            }
            if assoc_map(s).contains_key(k) {
                assert(assoc_map(s.drop_last()).contains_key(k));
            }
        }
    }
}

/// In a list with distinct keys, the map's value for a key is the value
/// of its one entry.
proof fn lemma_assoc_value(s: Seq<(Seq<char>, OptionPropertyConfigView)>, k: Seq<char>, i: int)
    requires
        wf_keys(s),
        0 <= i < s.len(),
        s[i].0 == k,
    ensures
        assoc_map(s).contains_key(k),
        assoc_map(s)[k] == s[i].1,
    decreases s.len(),
{
    if i == s.len() - 1 {
    } else {
        assert(s[s.len() - 1].0 != k);
        assert(wf_keys(s.drop_last())) by {
            assert(forall|x: int, y: int|
                0 <= x < y < s.drop_last().len() ==> (#[trigger] s.drop_last()[x]) == s[x]
                    && (#[trigger] s.drop_last()[y]) == s[y]);
        }
        assert(s.drop_last()[i] == s[i]);
        lemma_assoc_value(s.drop_last(), k, i);
    }
}

/// Replacing the value of an entry replaces it in the map.
proof fn lemma_assoc_update(
    s: Seq<(Seq<char>, OptionPropertyConfigView)>,
    i: int,
    v: OptionPropertyConfigView,
)
    requires
        wf_keys(s),
        0 <= i < s.len(),
    ensures
        assoc_map(s.update(i, (s[i].0, v))) =~= assoc_map(s).insert(s[i].0, v),
        wf_keys(s.update(i, (s[i].0, v))),
    decreases s.len(),
{
    let t = s.update(i, (s[i].0, v));
    assert(forall|x: int| 0 <= x < s.len() && x != i ==> (#[trigger] t[x]) == s[x]);
    if i == s.len() - 1 {
        assert(t.drop_last() =~= s.drop_last());
        assert(t.last() == (s[i].0, v));
    } else {
        assert(wf_keys(s.drop_last())) by {
            assert(forall|x: int, y: int|
                0 <= x < y < s.drop_last().len() ==> (#[trigger] s.drop_last()[x]) == s[x]
                    && (#[trigger] s.drop_last()[y]) == s[y]);
        }
        lemma_assoc_update(s.drop_last(), i, v);
        assert(t.drop_last() =~= s.drop_last().update(i, (s[i].0, v)));
        assert(t.last() == s.last());
        assert(s[s.len() - 1].0 != s[i].0);
        assert(assoc_map(t) =~= assoc_map(s).insert(s[i].0, v));
    }
}

/// Merging a sequence of pairs and then one more pair is merging the
/// extended sequence.
proof fn lemma_apply_pairs_snoc(
    m: Map<Seq<char>, OptionPropertyConfigView>,
    ps: Seq<(Seq<char>, OptionPropertyConfigView)>,
    p: (Seq<char>, OptionPropertyConfigView),
)
    ensures
        apply_pairs(m, ps.push(p)) == apply_pair(apply_pairs(m, ps), p.0, p.1),
    decreases ps.len(),
{
    let s1 = ps.push(p);
    if ps.len() == 0 {
        assert(s1.drop_first() =~= Seq::<(Seq<char>, OptionPropertyConfigView)>::empty());
        assert(s1[0] == p);
        assert(apply_pairs(m, s1) == apply_pairs(apply_pair(m, p.0, p.1), s1.drop_first()));
        assert(apply_pairs(apply_pair(m, p.0, p.1), s1.drop_first()) == apply_pair(m, p.0, p.1));
        assert(apply_pairs(m, ps) == m);
    } else {
        assert(s1.drop_first() =~= ps.drop_first().push(p));
        assert(s1[0] == ps[0]);
        lemma_apply_pairs_snoc(apply_pair(m, ps[0].0, ps[0].1), ps.drop_first(), p);
        assert(apply_pairs(m, s1) == apply_pairs(apply_pair(m, ps[0].0, ps[0].1), s1.drop_first()));
        assert(apply_pairs(m, ps) == apply_pairs(apply_pair(m, ps[0].0, ps[0].1), ps.drop_first()));
    }
}

/// Applying a sequence of groups and then one more group is applying the
/// extended sequence.
proof fn lemma_apply_groups_snoc(
    m: Map<Seq<char>, OptionPropertyConfigView>,
    gs: Seq<(Seq<char>, GroupConfigView)>,
    g: (Seq<char>, GroupConfigView),
)
    ensures
        apply_groups(m, gs.push(g)) == apply_pairs(apply_groups(m, gs), group_pairs(g.1)),
    decreases gs.len(),
{
    let s1 = gs.push(g);
    if gs.len() == 0 {
        assert(s1.drop_first() =~= Seq::<(Seq<char>, GroupConfigView)>::empty());
        assert(s1[0] == g);
        assert(apply_groups(m, s1) == apply_groups(apply_pairs(m, group_pairs(g.1)), s1.drop_first()));
        assert(apply_groups(apply_pairs(m, group_pairs(g.1)), s1.drop_first()) == apply_pairs(m, group_pairs(g.1)));
        assert(apply_groups(m, gs) == m);
    } else {
        assert(s1.drop_first() =~= gs.drop_first().push(g));
        assert(s1[0] == gs[0]);
        lemma_apply_groups_snoc(apply_pairs(m, group_pairs(gs[0].1)), gs.drop_first(), g);
        assert(apply_groups(m, s1) == apply_groups(apply_pairs(m, group_pairs(gs[0].1)), s1.drop_first()));
        assert(apply_groups(m, gs) == apply_groups(apply_pairs(m, group_pairs(gs[0].1)), gs.drop_first()));
    }
}

/// Whether two string slices hold the same characters.
fn str_eq(a: &str, b: &str) -> (r: bool)
    ensures
        r == (a@ == b@),
{
    let n = a.unicode_len();
    if n != b.unicode_len() {
        return false;
    }
    let mut i: usize = 0;
    while i < n
        invariant
            n == a@.len(),
            n == b@.len(),
            i <= n,
            forall|j: int| 0 <= j < i ==> a@[j] == b@[j],
        decreases n - i,
    {
        if a.get_char(i) != b.get_char(i) {
            return false;
        }
        i = i + 1;
    }
    proof {
        assert(a@ =~= b@);
    }
    true
}

/// A copy of an optional separator text with the same characters.
fn clone_opt_string(o: &Option<String>) -> (r: Option<String>)
    ensures
        view_opt_string(r) == view_opt_string(*o),
{
    match o {
        Some(s) => Some(s.clone()),
        None => None,
    }
}

/// A copy of a partial styling record with the same view.
fn dup_partial(c: &OptionPropertyConfig) -> (r: OptionPropertyConfig)
    ensures
        r@ == c@,
{
    OptionPropertyConfig {
        name_color: c.name_color,
        separator: clone_opt_string(&c.separator),
        separator_color: c.separator_color,
        value_color: c.value_color,
    }
}

impl Config {
    /// Distinct keys: each property has at most one accumulated entry.
    pub closed spec fn wf(self) -> bool {
        wf_keys(pairs_view(self.properties@))
    }

    /// Merges `config` attribute-wise into the accumulated partial
    /// record for `property`, starting one where none exists yet.
    pub fn insert(&mut self, property: &String, config: &OptionPropertyConfig)
        requires
            old(self).wf(),
        ensures
            final(self).wf(),
            final(self)@.default == old(self)@.default,
            final(self)@.properties == apply_pair(old(self)@.properties, property@, config@),
    {
        let ghost vs = pairs_view(self.properties@);
        let n = self.properties.len();
        let mut i: usize = 0;
        while i < n
            invariant
                *self == *old(self),
                old(self).wf(),
                wf_keys(vs),
                vs == pairs_view(self.properties@),
                n == self.properties@.len(),
                i <= n,
                forall|j: int| 0 <= j < i ==> (#[trigger] vs[j]).0 != property@,
            decreases n - i,
        {
            if str_eq(self.properties[i].0.as_str(), property.as_str()) {
                assert(vs[i as int].0 == property@);
                let merged = OptionPropertyConfig {
                    name_color: match config.name_color {
                        Some(c) => Some(c),
                        None => self.properties[i].1.name_color,
                    },
                    separator: match &config.separator {
                        Some(s) => Some(s.clone()),
                        None => clone_opt_string(&self.properties[i].1.separator),
                    },
                    separator_color: match config.separator_color {
                        Some(c) => Some(c),
                        None => self.properties[i].1.separator_color,
                    },
                    value_color: match config.value_color {
                        Some(c) => Some(c),
                        None => self.properties[i].1.value_color,
                    },
                };
                assert(merged@ == merge_partial(vs[i as int].1, config@));
                let key = property.clone();
                self.properties[i] = (key, merged);
                proof {
                    lemma_assoc_value(vs, property@, i as int);
                    lemma_assoc_update(vs, i as int, merged@);
                    assert(pairs_view(self.properties@) =~= vs.update(
                        i as int,
                        (property@, merged@),
                    ));
                    assert(vs.update(i as int, (property@, merged@)) == vs.update(
                        i as int,
                        (vs[i as int].0, merged@),
                    ));
                    assert(self@.properties =~= apply_pair(
                        old(self)@.properties,
                        property@,
                        config@,
                    ));
                }
                return ;
            }
            i = i + 1;
        }
        self.properties.push((property.clone(), dup_partial(config)));
        proof {
            lemma_assoc_contains(vs, property@);
            assert(!assoc_map(vs).contains_key(property@));
            assert(merge_partial(empty_partial(), config@) == config@);
            assert(pairs_view(self.properties@) =~= vs.push((property@, config@)));
            assert(vs.push((property@, config@)).drop_last() =~= vs);
            assert(self.wf());
            assert(self@.properties =~= apply_pair(
                old(self)@.properties,
                property@,
                config@,
            ));
        }
    }

    /// Builds the engine from a raw configuration: applies every group's
    /// partial record to each of its member properties, groups in list
    /// order, then applies every override, so an override's attribute
    /// always wins over any group's.
    pub fn parse(raw: RawConfig) -> (r: Config)
        ensures
            r.wf(),
            r@.default == raw@.default,
            r@.properties == resolved_map(raw@),
    {
        let ghost rawv = raw@;
        let RawConfig { default, groups, overrides } = raw;
        let mut config = Config { default, properties: Vec::new() };
        proof {
            assert(pairs_view(config.properties@) =~= Seq::<
                (Seq<char>, OptionPropertyConfigView),
            >::empty());
            assert(config@.properties =~= Map::<Seq<char>, OptionPropertyConfigView>::empty());
            assert(rawv.groups.subrange(0, 0) =~= Seq::<(Seq<char>, GroupConfigView)>::empty());
        }
        let mut gi: usize = 0;
        while gi < groups.len()
            invariant
                config.wf(),
                config@.default == rawv.default,
                rawv.groups == pairs_group_view(groups@),
                rawv.overrides == pairs_view(overrides@),
                gi <= groups@.len(),
                config@.properties == apply_groups(
                    Map::<Seq<char>, OptionPropertyConfigView>::empty(),
                    rawv.groups.subrange(0, gi as int),
                ),
            decreases groups@.len() - gi,
        {
            let gc = &groups[gi].1;
            let ghost gv = rawv.groups[gi as int].1;
            assert(gv == gc@);
            let ghost mstart = config@.properties;
            proof {
                assert(group_pairs(gv).subrange(0, 0) =~= Seq::<
                    (Seq<char>, OptionPropertyConfigView),
                >::empty());
            }
            let mut pi: usize = 0;
            while pi < gc.properties.len()
                invariant
                    config.wf(),
                    config@.default == rawv.default,
                    gv == gc@,
                    pi <= gc.properties@.len(),
                    group_pairs(gv).len() == gc.properties@.len(),
                    config@.properties == apply_pairs(
                        mstart,
                        group_pairs(gv).subrange(0, pi as int),
                    ),
                decreases gc.properties@.len() - pi,
            {
                let partial = OptionPropertyConfig {
                    name_color: gc.name_color,
                    separator: clone_opt_string(&gc.separator),
                    separator_color: gc.separator_color,
                    value_color: gc.value_color,
                };
                assert(partial@ == gv.partial);
                config.insert(&gc.properties[pi], &partial);
                proof {
                    assert(group_pairs(gv)[pi as int] == (gv.properties[pi as int], gv.partial));
                    assert(gv.properties[pi as int] == gc.properties@[pi as int]@);
                    assert(group_pairs(gv).subrange(0, pi as int + 1) =~= group_pairs(
                        gv,
                    ).subrange(0, pi as int).push(group_pairs(gv)[pi as int]));
                    lemma_apply_pairs_snoc(
                        mstart,
                        group_pairs(gv).subrange(0, pi as int),
                        group_pairs(gv)[pi as int],
                    );
                }
                pi = pi + 1;
            }
            proof {
                assert(group_pairs(gv).subrange(0, group_pairs(gv).len() as int) =~= group_pairs(
                    gv,
                ));
                assert(rawv.groups.subrange(0, gi as int + 1) =~= rawv.groups.subrange(
                    0,
                    gi as int,
                ).push(rawv.groups[gi as int]));
                lemma_apply_groups_snoc(
                    Map::<Seq<char>, OptionPropertyConfigView>::empty(),
                    rawv.groups.subrange(0, gi as int),
                    rawv.groups[gi as int],
                );
            }
            gi = gi + 1;
        }
        proof {
            assert(rawv.groups.subrange(0, rawv.groups.len() as int) =~= rawv.groups);
            assert(rawv.overrides.subrange(0, 0) =~= Seq::<
                (Seq<char>, OptionPropertyConfigView),
            >::empty());
        }
        let ghost m1 = config@.properties;
        let mut oi: usize = 0;
        while oi < overrides.len()
            invariant
                config.wf(),
                config@.default == rawv.default,
                rawv.overrides == pairs_view(overrides@),
                oi <= overrides@.len(),
                config@.properties == apply_pairs(m1, rawv.overrides.subrange(0, oi as int)),
                m1 == apply_groups(
                    Map::<Seq<char>, OptionPropertyConfigView>::empty(),
                    rawv.groups,
                ),
            decreases overrides@.len() - oi,
        {
            config.insert(&overrides[oi].0, &overrides[oi].1);
            proof {
                assert(rawv.overrides[oi as int] == (overrides@[oi as int].0@, overrides@[oi
                    as int].1@));
                assert(rawv.overrides.subrange(0, oi as int + 1) =~= rawv.overrides.subrange(
                    0,
                    oi as int,
                ).push(rawv.overrides[oi as int]));
                lemma_apply_pairs_snoc(
                    m1,
                    rawv.overrides.subrange(0, oi as int),
                    rawv.overrides[oi as int],
                );
            }
            oi = oi + 1;
        }
        proof {
            assert(rawv.overrides.subrange(0, rawv.overrides.len() as int) =~= rawv.overrides);
        }
        config
    }

    /// Resolves a property name to a fully populated styling record:
    /// each attribute comes from the accumulated partial record where
    /// present, and from the default otherwise; a name with no entry
    /// resolves to the default verbatim. Never fails.
    pub fn get(&self, property: &str) -> (r: PropertyConfig)
        requires
            self.wf(),
        ensures
            r@ == spec_get(self@, property@),
    {
        let ghost vs = pairs_view(self.properties@);
        let n = self.properties.len();
        let mut i: usize = 0;
        while i < n
            invariant
                self.wf(),
                vs == pairs_view(self.properties@),
                n == self.properties@.len(),
                i <= n,
                forall|j: int| 0 <= j < i ==> (#[trigger] vs[j]).0 != property@,
            decreases n - i,
        {
            if str_eq(self.properties[i].0.as_str(), property) {
                assert(vs[i as int].0 == property@);
                proof {
                    lemma_assoc_value(vs, property@, i as int);
                }
                let pc = &self.properties[i].1;
                return PropertyConfig {
                    name_color: match pc.name_color {
                        Some(c) => c,
                        None => self.default.name_color,
                    },
                    separator: match &pc.separator {
                        Some(s) => s.clone(),
                        None => self.default.separator.clone(),
                    },
                    separator_color: match pc.separator_color {
                        Some(c) => c,
                        None => self.default.separator_color,
                    },
                    value_color: match pc.value_color {
                        Some(c) => c,
                        None => self.default.value_color,
                    },
                };
            }
            i = i + 1;
        }
        proof {
            lemma_assoc_contains(vs, property@);
        }
        PropertyConfig {
            name_color: self.default.name_color,
            separator: self.default.separator.clone(),
            separator_color: self.default.separator_color,
            value_color: self.default.value_color,
        }
    }
}

/// Merging pairs that never name `k` leaves `k`'s entry as it was.
proof fn lemma_apply_pairs_untouched(
    m: Map<Seq<char>, OptionPropertyConfigView>,
    ps: Seq<(Seq<char>, OptionPropertyConfigView)>,
    k: Seq<char>,
)
    requires
        forall|i: int| 0 <= i < ps.len() ==> (#[trigger] ps[i]).0 != k,
    ensures
        apply_pairs(m, ps).contains_key(k) == m.contains_key(k),
        m.contains_key(k) ==> apply_pairs(m, ps)[k] == m[k],
    decreases ps.len(),
{
    if ps.len() > 0 {
        assert(forall|i: int|
            0 <= i < ps.drop_first().len() ==> (#[trigger] ps.drop_first()[i]) == ps[i + 1]);
        lemma_apply_pairs_untouched(apply_pair(m, ps[0].0, ps[0].1), ps.drop_first(), k);
    }
}

/// Applying groups whose member lists never name `k` leaves `k`'s entry
/// as it was.
proof fn lemma_apply_groups_untouched(
    m: Map<Seq<char>, OptionPropertyConfigView>,
    gs: Seq<(Seq<char>, GroupConfigView)>,
    k: Seq<char>,
)
    requires
        forall|i: int| 0 <= i < gs.len() ==> !(#[trigger] gs[i]).1.properties.contains(k),
    ensures
        apply_groups(m, gs).contains_key(k) == m.contains_key(k),
        m.contains_key(k) ==> apply_groups(m, gs)[k] == m[k],
    decreases gs.len(),
{
    if gs.len() > 0 {
        let ps = group_pairs(gs[0].1);
        assert forall|j: int| 0 <= j < ps.len() implies (#[trigger] ps[j]).0 != k by {
            if ps[j].0 == k {
                assert(gs[0].1.properties[j] == k);
                assert(gs[0].1.properties.contains(k));
            }
        }
        lemma_apply_pairs_untouched(m, ps, k);
        assert(forall|i: int|
            0 <= i < gs.drop_first().len() ==> (#[trigger] gs.drop_first()[i]) == gs[i + 1]);
        lemma_apply_groups_untouched(apply_pairs(m, ps), gs.drop_first(), k);
    }
}

/// Whether any group member list or any override entry names `k`.
pub open spec fn touches(raw: RawConfigView, k: Seq<char>) -> bool {
    (exists|i: int|
        0 <= i < raw.groups.len() && (#[trigger] raw.groups[i]).1.properties.contains(k)) || (
    exists|i: int| 0 <= i < raw.overrides.len() && (#[trigger] raw.overrides[i]).0 == k)
}

/// Default fallback law: a property that no group member list and no
/// override names gets no accumulated entry, and a query for it returns
/// the default record verbatim, whatever that default is.
pub proof fn lemma_default_fallback(raw: RawConfigView, k: Seq<char>)
    requires
        !touches(raw, k),
    ensures
        !resolved_map(raw).contains_key(k),
        forall|d: PropertyConfigView|
            spec_get(ConfigView { default: d, properties: resolved_map(raw) }, k) == d,
{
    let m0 = Map::<Seq<char>, OptionPropertyConfigView>::empty();
    lemma_apply_groups_untouched(m0, raw.groups, k);
    lemma_apply_pairs_untouched(apply_groups(m0, raw.groups), raw.overrides, k);
    assert(!m0.contains_key(k));
    assert(forall|d: PropertyConfigView| resolve_record(d, empty_partial()) == d);
}

/// Merging pairs that never set the name color for `k` keeps `k`'s
/// accumulated name color.
proof fn lemma_apply_pairs_keeps_name_color(
    m: Map<Seq<char>, OptionPropertyConfigView>,
    ps: Seq<(Seq<char>, OptionPropertyConfigView)>,
    k: Seq<char>,
)
    requires
        m.contains_key(k),
        forall|j: int|
            0 <= j < ps.len() && (#[trigger] ps[j]).0 == k ==> ps[j].1.name_color is None,
    ensures
        apply_pairs(m, ps).contains_key(k),
        apply_pairs(m, ps)[k].name_color == m[k].name_color,
    decreases ps.len(),
{
    if ps.len() > 0 {
        let m2 = apply_pair(m, ps[0].0, ps[0].1);
        assert(m2.contains_key(k));
        assert(m2[k].name_color == m[k].name_color);
        assert(forall|j: int|
            0 <= j < ps.drop_first().len() ==> (#[trigger] ps.drop_first()[j]) == ps[j + 1]);
        lemma_apply_pairs_keeps_name_color(m2, ps.drop_first(), k);
    }
}

/// A pair that sets the name color for `k`, with no later pair setting
/// it again, decides `k`'s accumulated name color.
proof fn lemma_apply_pairs_sets_name_color(
    m: Map<Seq<char>, OptionPropertyConfigView>,
    ps: Seq<(Seq<char>, OptionPropertyConfigView)>,
    k: Seq<char>,
    i: int,
    c: Color,
)
    requires
        0 <= i < ps.len(),
        ps[i].0 == k,
        ps[i].1.name_color == Some(c),
        forall|j: int|
            i < j < ps.len() && (#[trigger] ps[j]).0 == k ==> ps[j].1.name_color is None,
    ensures
        apply_pairs(m, ps).contains_key(k),
        apply_pairs(m, ps)[k].name_color == Some(c),
    decreases ps.len(),
{
    let m2 = apply_pair(m, ps[0].0, ps[0].1);
    assert(forall|j: int|
        0 <= j < ps.drop_first().len() ==> (#[trigger] ps.drop_first()[j]) == ps[j + 1]);
    if i == 0 {
        assert(m2.contains_key(k));
        assert(m2[k].name_color == Some(c));
        lemma_apply_pairs_keeps_name_color(m2, ps.drop_first(), k);
    } else {
        lemma_apply_pairs_sets_name_color(m2, ps.drop_first(), k, i - 1, c);
    }
}

/// Override precedence law: where some override entry for a property
/// sets its name color, and no later override entry for the same
/// property sets it again, a query returns that color — whatever any
/// group assigned to the property.
pub proof fn lemma_override_wins_name_color(raw: RawConfigView, k: Seq<char>, i: int, c: Color)
    requires
        0 <= i < raw.overrides.len(),
        raw.overrides[i].0 == k,
        raw.overrides[i].1.name_color == Some(c),
        forall|j: int|
            i < j < raw.overrides.len() && (#[trigger] raw.overrides[j]).0 == k
                ==> raw.overrides[j].1.name_color is None,
    ensures
        resolved_map(raw).contains_key(k),
        resolved_map(raw)[k].name_color == Some(c),
        forall|d: PropertyConfigView|
            spec_get(ConfigView { default: d, properties: resolved_map(raw) }, k).name_color
                == c,
{
    lemma_apply_pairs_sets_name_color(
        apply_groups(Map::<Seq<char>, OptionPropertyConfigView>::empty(), raw.groups),
        raw.overrides,
        k,
        i,
        c,
    );
}

/// Attribute independence law: with one group setting only the name
/// color for its member property and one override setting only the
/// separator for that property, a query returns the name color from the
/// group, the separator from the override, and the two remaining
/// attributes from the default — the merge is attribute-wise, not
/// whole-record.
pub proof fn lemma_attribute_independence(
    d: PropertyConfigView,
    gname: Seq<char>,
    k: Seq<char>,
    nc: Color,
    sep: Seq<char>,
)
    ensures
        ({
            let raw = RawConfigView {
                default: d,
                groups: seq![
                    (
                        gname,
                        GroupConfigView {
                            partial: OptionPropertyConfigView {
                                name_color: Some(nc),
                                separator: None,
                                separator_color: None,
                                value_color: None,
                            },
                            properties: seq![k],
                        },
                    ),
                ],
                overrides: seq![
                    (
                        k,
                        OptionPropertyConfigView {
                            name_color: None,
                            separator: Some(sep),
                            separator_color: None,
                            value_color: None,
                        },
                    ),
                ],
            };
            spec_get(ConfigView { default: d, properties: resolved_map(raw) }, k)
                == PropertyConfigView {
                name_color: nc,
                separator: sep,
                separator_color: d.separator_color,
                value_color: d.value_color,
            }
        }),
{
    let gpart = OptionPropertyConfigView {
        name_color: Some(nc),
        separator: None,
        separator_color: None,
        value_color: None,
    };
    let opart = OptionPropertyConfigView {
        name_color: None,
        separator: Some(sep),
        separator_color: None,
        value_color: None,
    };
    let raw = RawConfigView {
        default: d,
        groups: seq![(gname, GroupConfigView { partial: gpart, properties: seq![k] })],
        overrides: seq![(k, opart)],
    };
    let m0 = Map::<Seq<char>, OptionPropertyConfigView>::empty();
    let g = raw.groups[0].1;
    let ps = group_pairs(g);
    assert(ps =~= seq![(k, gpart)]);
    assert(ps.drop_first() =~= Seq::<(Seq<char>, OptionPropertyConfigView)>::empty());
    assert(apply_pairs(m0, ps) == apply_pairs(apply_pair(m0, k, gpart), ps.drop_first()));
    assert(apply_pairs(apply_pair(m0, k, gpart), ps.drop_first()) == apply_pair(m0, k, gpart));
    assert(merge_partial(empty_partial(), gpart) == gpart);
    let m1 = apply_pair(m0, k, gpart);
    assert(m1 == m0.insert(k, gpart));
    assert(raw.groups.drop_first() =~= Seq::<(Seq<char>, GroupConfigView)>::empty());
    assert(apply_groups(m0, raw.groups) == apply_groups(apply_pairs(m0, ps), raw.groups.drop_first()));
    assert(apply_groups(apply_pairs(m0, ps), raw.groups.drop_first()) == apply_pairs(m0, ps));
    assert(raw.overrides.drop_first() =~= Seq::<(Seq<char>, OptionPropertyConfigView)>::empty());
    assert(apply_pairs(m1, raw.overrides) == apply_pairs(
        apply_pair(m1, k, opart),
        raw.overrides.drop_first(),
    ));
    assert(apply_pairs(apply_pair(m1, k, opart), raw.overrides.drop_first()) == apply_pair(
        m1,
        k,
        opart,
    ));
    assert(accum_get(m1, k) == gpart);
    let merged = merge_partial(gpart, opart);
    assert(resolved_map(raw) == m1.insert(k, merged));
    assert(accum_get(m1.insert(k, merged), k) == merged);
    assert(merged.name_color == Some(nc));
    assert(merged.separator == Some(sep));
}

/// The built-in raw configuration used when no document is supplied:
/// bright-cyan names, `": "` separators and bright-white values by
/// default, and one `sys` group giving the host properties palette
/// color 69 names and pure white values.
pub open spec fn builtin_raw() -> RawConfigView {
    RawConfigView {
        default: PropertyConfigView {
            name_color: Color::BrightCyan,
            separator: ": "@,
            separator_color: Color::BrightWhite,
            value_color: Color::BrightWhite,
        },
        groups: seq![
            (
                "sys"@,
                GroupConfigView {
                    partial: OptionPropertyConfigView {
                        name_color: Some(Color::Color256(69)),
                        separator: None,
                        separator_color: None,
                        value_color: Some(Color::TrueColor(255, 255, 255)),
                    },
                    properties: seq!["os"@, "kernel"@, "memory"@, "cpu"@, "gpu"@],
                },
            ),
        ],
        overrides: Seq::empty(),
    }
}

impl Default for RawConfig {
    /// The built-in raw configuration, as `builtin_raw` describes.
    fn default() -> (r: Self)
        ensures
            r@ == builtin_raw(),
    {
        let r = RawConfig {
            default: PropertyConfig {
                name_color: Color::BrightCyan,
                separator: String::from_str(": "),
                separator_color: Color::BrightWhite,
                value_color: Color::BrightWhite,
            },
            groups: vec![
                (
                    String::from_str("sys"),
                    GroupConfig {
                        name_color: Some(Color::Color256(69)),
                        separator: None,
                        separator_color: None,
                        value_color: Some(Color::TrueColor(255, 255, 255)),
                        properties: vec![
                            String::from_str("os"),
                            String::from_str("kernel"),
                            String::from_str("memory"),
                            String::from_str("cpu"),
                            String::from_str("gpu"),
                        ],
                    },
                ),
            ],
            overrides: Vec::new(),
        };
        proof {
            assert(r@.groups[0].1.properties =~= builtin_raw().groups[0].1.properties);
            assert(r@.groups =~= builtin_raw().groups);
            assert(r@.overrides =~= builtin_raw().overrides);
        }
        r
    }
}

impl Default for Config {
    /// The engine built from the built-in raw configuration.
    fn default() -> (r: Self)
        ensures
            r.wf(),
            r@.default == builtin_raw().default,
            r@.properties == resolved_map(builtin_raw()),
    {
        Config::parse(RawConfig::default())
    }
}

/// The group-assignment pairs an executable group list stands for.
pub open spec fn pairs_group_view(s: Seq<(String, GroupConfig)>) -> Seq<
    (Seq<char>, GroupConfigView),
> {
    s.map_values(|g: (String, GroupConfig)| (g.0@, g.1@))
}

} // verus!
