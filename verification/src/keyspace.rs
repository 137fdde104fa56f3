//! The bus key space: `home/{class}/...` expressions and what they cover.

use crate::text;
use crate::text::cat3;
use crate::text::cat5;
use crate::text::is_listed;
use crate::text::split;
use crate::text::str_eq;
use vstd::prelude::*;

verus! {

broadcast use crate::text::group_views;

/// `home/{class}/...` — the classes the core owns. A forecast is a series'
/// future, keyed like its present: same room, entity and aspect.
pub const CLASSES: [&'static str; 10] = [
    "state",
    "cmd",
    "arbiter",
    "forecast",
    "config",
    "meta",
    "health",
    "clock",
    "history",
    "discovery",
];

/// The classes addressed per entity — `home/{class}/{room}/{entity}/{aspect}`
/// — rather than by some other shape under the class. `forecast` is one of
/// them and takes a sixth segment, its source; see `check_schema`.
pub const ENTITY_ADDRESSED: [&'static str; 4] = ["state", "cmd", "arbiter", "forecast"];

/// Reserved pseudo-rooms for non-spatial entities.
pub const PSEUDO_ROOMS: [&'static str; 2] = ["global", "person"];

/// `home`, a key class or a pseudo-room.
pub open spec fn reserved(word: Seq<char>) -> bool {
    word == "home"@ || text::listed(CLASSES@, word) || text::listed(PSEUDO_ROOMS@, word)
}

/// Words that may not be used as room or zone names (pseudo-rooms are the
/// exception for entity rooms).
pub fn is_reserved_word(word: &str) -> (r: bool)
    ensures
        r == reserved(word@),
{
    str_eq(word, "home") || is_listed(&CLASSES, word) || is_listed(&PSEUDO_ROOMS, word)
}

#[derive(Debug, Clone, PartialEq, Eq)]
pub enum Segment {
    Literal(String),
    /// `*` — exactly one segment.
    Any,
    /// `**` — zero or more segments.
    AnyRec,
    /// `{room}` — expanded per bound entity, entity-binding units only.
    RoomTemplate,
    /// `{entity}` — expanded per bound entity, entity-binding units only.
    EntityTemplate,
}

/// What a segment stands for.
pub enum SegmentView {
    Literal(Seq<char>),
    Any,
    AnyRec,
    RoomTemplate,
    EntityTemplate,
}

impl View for Segment {
    type V = SegmentView;

    open spec fn view(&self) -> SegmentView {
        match self {
            Segment::Literal(s) => SegmentView::Literal(s@),
            Segment::Any => SegmentView::Any,
            Segment::AnyRec => SegmentView::AnyRec,
            Segment::RoomTemplate => SegmentView::RoomTemplate,
            Segment::EntityTemplate => SegmentView::EntityTemplate,
        }
    }
}

/// The segment as it is written.
pub open spec fn segment_text(s: SegmentView) -> Seq<char> {
    match s {
        SegmentView::Literal(l) => l,
        SegmentView::Any => "*"@,
        SegmentView::AnyRec => "**"@,
        SegmentView::RoomTemplate => "{room}"@,
        SegmentView::EntityTemplate => "{entity}"@,
    }
}

/// The segment that a piece of a key denotes.
pub open spec fn segment_of(piece: Seq<char>) -> SegmentView {
    if piece == "*"@ {
        SegmentView::Any
    } else if piece == "**"@ {
        SegmentView::AnyRec
    } else if piece == "{room}"@ {
        SegmentView::RoomTemplate
    } else if piece == "{entity}"@ {
        SegmentView::EntityTemplate
    } else {
        SegmentView::Literal(piece)
    }
}

impl Segment {
    pub fn to_string(&self) -> (r: String)
        ensures
            r@ == segment_text(self@),
    {
        match self {
            Segment::Literal(s) => s.clone(),
            Segment::Any => "*".to_owned(),
            Segment::AnyRec => "**".to_owned(),
            Segment::RoomTemplate => "{room}".to_owned(),
            Segment::EntityTemplate => "{entity}".to_owned(),
        }
    }

    /// The same segment once more.
    pub fn copy(&self) -> (r: Segment)
        ensures
            r@ == self@,
    {
        match self {
            Segment::Literal(s) => Segment::Literal(s.clone()),
            Segment::Any => Segment::Any,
            Segment::AnyRec => Segment::AnyRec,
            Segment::RoomTemplate => Segment::RoomTemplate,
            Segment::EntityTemplate => Segment::EntityTemplate,
        }
    }

    /// The literal text of the segment, if it is a literal.
    pub fn literal(&self) -> (r: Option<&String>)
        ensures
            match r {
                Some(s) => self@ == SegmentView::Literal(s@),
                None => !(self@ is Literal),
            },
    {
        match self {
            Segment::Literal(s) => Some(s),
            _ => None,
        }
    }
}

#[derive(Debug, Clone, PartialEq, Eq)]
pub struct KeyExpr(pub Vec<Segment>);

impl View for KeyExpr {
    type V = Seq<SegmentView>;

    open spec fn view(&self) -> Seq<SegmentView> {
        text::views(self.0@)
    }
}

/// The pieces an expression is written with.
pub open spec fn key_pieces(k: Seq<SegmentView>) -> Seq<Seq<char>> {
    Seq::new(k.len(), |i: int| segment_text(k[i]))
}

/// The expression as it is written.
pub open spec fn key_text(k: Seq<SegmentView>) -> Seq<char> {
    text::joined(key_pieces(k), "/"@)
}

/// The expression that `raw` denotes, or why it denotes none.
pub open spec fn parsed(raw: Seq<char>) -> Result<Seq<SegmentView>, Seq<char>> {
    let pieces = text::split_at_each(raw, '/');
    if raw.len() == 0 {
        Err("key is empty"@)
    } else if pieces.contains(Seq::empty()) {
        Err("\""@ + raw + "\" has an empty segment"@)
    } else {
        Ok(Seq::new(pieces.len(), |i: int| segment_of(pieces[i])))
    }
}

/// The class segment, where it is a literal.
pub open spec fn class_of(k: Seq<SegmentView>) -> Option<Seq<char>> {
    if k.len() > 1 {
        match k[1] {
            SegmentView::Literal(c) => Some(c),
            _ => None,
        }
    } else {
        None
    }
}

/// Whether a `{room}` or `{entity}` template occurs.
pub open spec fn templated(k: Seq<SegmentView>) -> bool {
    exists|i: int|
        0 <= i < k.len() && (#[trigger] k[i] is RoomTemplate || k[i] is EntityTemplate)
}

/// The fewest segments an expression of the class has.
pub open spec fn shortest(class: Seq<char>) -> nat {
    if class == "forecast"@ {
        6
    } else if text::listed(ENTITY_ADDRESSED@, class) {
        5
    } else {
        3
    }
}

/// Why `k`, written `raw`, is outside the key space; `None` when it is
/// inside.
pub open spec fn schema_fault(k: Seq<SegmentView>, raw: Seq<char>) -> Option<Seq<char>> {
    if !(k.len() > 0 && k[0] == SegmentView::Literal("home"@)) {
        Some("\""@ + raw + "\" does not start with \"home/\""@)
    } else {
        match class_of(k) {
            None => Some("\""@ + raw + "\" needs a literal class segment after \"home/\""@),
            Some(class) => if !text::listed(CLASSES@, class) {
                Some("\""@ + raw + "\" has unknown class \""@ + class + "\""@)
            } else if !k.contains(SegmentView::AnyRec) && k.len() < shortest(class) {
                Some(
                    "\""@ + raw + if shortest(class) == 6 {
                        "\" needs room/entity/aspect/source segments after the class"@
                    } else if shortest(class) == 5 {
                        "\" needs room/entity/aspect segments after the class"@
                    } else {
                        "\" needs a segment after the class"@
                    },
                )
            } else {
                None
            },
        }
    }
}

/// The room segment; only the entity-addressed classes have one.
pub open spec fn room_of(k: Seq<SegmentView>) -> Option<SegmentView> {
    match class_of(k) {
        Some(class) => if text::listed(ENTITY_ADDRESSED@, class) && k.len() > 2 {
            Some(k[2])
        } else {
            None
        },
        None => None,
    }
}

/// The expression with its templates filled in for one entity.
pub open spec fn substituted(
    k: Seq<SegmentView>,
    room: Seq<char>,
    entity: Seq<char>,
) -> Seq<SegmentView> {
    Seq::new(
        k.len(),
        |i: int|
            match k[i] {
                SegmentView::RoomTemplate => SegmentView::Literal(room),
                SegmentView::EntityTemplate => SegmentView::Literal(entity),
                other => other,
            },
    )
}

/// Whether the key made of these segments is one the expression stands for;
/// a template stands for any one segment.
pub open spec fn key_matches(k: Seq<SegmentView>, key: Seq<Seq<char>>) -> bool
    decreases k.len() + key.len(),
{
    if k.len() == 0 {
        key.len() == 0
    } else {
        match k[0] {
            SegmentView::AnyRec => {
                ||| key_matches(k.drop_first(), key)
                ||| key.len() > 0 && key_matches(k, key.drop_first())
            },
            SegmentView::Literal(l) => {
                &&& key.len() > 0
                &&& key[0] == l
                &&& key_matches(k.drop_first(), key.drop_first())
            },
            _ => key.len() > 0 && key_matches(k.drop_first(), key.drop_first()),
        }
    }
}

/// Whether the expression matches some key that begins with `prefix`.
pub open spec fn covers(k: Seq<SegmentView>, prefix: Seq<Seq<char>>) -> bool {
    exists|rest: Seq<Seq<char>>| #[trigger] key_matches(k, prefix + rest)
}

/// The walk over an expression and a prefix that decides `covers`.
spec fn reaches(k: Seq<SegmentView>, prefix: Seq<Seq<char>>) -> bool
    decreases k.len() + prefix.len(),
{
    if prefix.len() == 0 {
        true
    } else if k.len() == 0 {
        false
    } else {
        match k[0] {
            SegmentView::AnyRec => {
                ||| reaches(k.drop_first(), prefix)
                ||| reaches(k, prefix.drop_first())
            },
            SegmentView::Literal(l) => prefix[0] == l && reaches(
                k.drop_first(),
                prefix.drop_first(),
            ),
            _ => reaches(k.drop_first(), prefix.drop_first()),
        }
    }
}

proof fn lemma_some_key(k: Seq<SegmentView>) -> (key: Seq<Seq<char>>)
    ensures
        key_matches(k, key),
    decreases k.len(),
{
    if k.len() == 0 {
        Seq::empty()
    } else {
        let tail = lemma_some_key(k.drop_first());
        match k[0] {
            SegmentView::AnyRec => tail,
            SegmentView::Literal(l) => {
                let key = seq![l] + tail;
                assert(key.drop_first() =~= tail);
                key
            },
            _ => {
                let key = seq!["*"@] + tail;
                assert(key.drop_first() =~= tail);
                key
            },
        }
    }
}

proof fn lemma_reaches(k: Seq<SegmentView>, prefix: Seq<Seq<char>>) -> (rest: Seq<Seq<char>>)
    requires
        reaches(k, prefix),
    ensures
        key_matches(k, prefix + rest),
    decreases k.len() + prefix.len(),
{
    if prefix.len() == 0 {
        let rest = lemma_some_key(k);
        assert(prefix + rest =~= rest);
        rest
    } else {
        let next = prefix.drop_first();
        match k[0] {
            SegmentView::AnyRec => {
                if reaches(k.drop_first(), prefix) {
                    lemma_reaches(k.drop_first(), prefix)
                } else {
                    let rest = lemma_reaches(k, next);
                    assert((prefix + rest).drop_first() =~= next + rest);
                    rest
                }
            },
            _ => {
                let rest = lemma_reaches(k.drop_first(), next);
                assert((prefix + rest).drop_first() =~= next + rest);
                rest
            },
        }
    }
}

proof fn lemma_reached(k: Seq<SegmentView>, prefix: Seq<Seq<char>>, rest: Seq<Seq<char>>)
    requires
        key_matches(k, prefix + rest),
    ensures
        reaches(k, prefix),
    decreases k.len() + prefix.len(),
{
    if prefix.len() > 0 {
        let next = prefix.drop_first();
        assert((prefix + rest).drop_first() =~= next + rest);
        match k[0] {
            SegmentView::AnyRec => {
                if key_matches(k.drop_first(), prefix + rest) {
                    lemma_reached(k.drop_first(), prefix, rest);
                } else {
                    lemma_reached(k, next, rest);
                }
            },
            _ => {
                lemma_reached(k.drop_first(), next, rest);
            },
        }
    }
}

proof fn lemma_covers(k: Seq<SegmentView>, prefix: Seq<Seq<char>>)
    ensures
        covers(k, prefix) == reaches(k, prefix),
{
    if reaches(k, prefix) {
        let rest = lemma_reaches(k, prefix);
        assert(key_matches(k, prefix + rest));
    }
    if covers(k, prefix) {
        let rest = choose|rest: Seq<Seq<char>>| #[trigger] key_matches(k, prefix + rest);
        lemma_reached(k, prefix, rest);
    }
}

/// Writing out a parsed expression gives the text it was parsed from.
pub proof fn law_text_of_parsed(raw: Seq<char>)
    requires
        parsed(raw) is Ok,
    ensures
        key_text(parsed(raw)->Ok_0) == raw,
{
    reveal_strlit("/");
    let pieces = text::split_at_each(raw, '/');
    text::lemma_join_split(raw, '/');
    assert("/"@ =~= seq!['/']);
    assert(key_pieces(parsed(raw)->Ok_0) =~= pieces);
}

/// A segment that parsing can yield: a literal is not empty, holds no slash
/// and is not written like a wildcard or a template.
pub open spec fn segment_ok(s: SegmentView) -> bool {
    s matches SegmentView::Literal(l) ==> l.len() > 0 && !l.contains('/') && segment_of(l) is Literal
}

/// Parsing a written expression gives the expression back.
pub proof fn law_parse_of_text(k: Seq<SegmentView>)
    requires
        k.len() > 0,
        forall|i: int| 0 <= i < k.len() ==> segment_ok(#[trigger] k[i]),
    ensures
        parsed(key_text(k)) == Ok::<Seq<SegmentView>, Seq<char>>(k),
{
    reveal_strlit("/");
    reveal_strlit("*");
    reveal_strlit("**");
    reveal_strlit("{room}");
    reveal_strlit("{entity}");
    assert("/"@ =~= seq!['/']);
    let pieces = key_pieces(k);
    assert forall|i: int| 0 <= i < pieces.len() implies !(#[trigger] pieces[i]).contains('/')
        && pieces[i].len() > 0 && segment_of(pieces[i]) == k[i] by {
        assert(segment_ok(k[i]));
        assert("**"@.len() != "*"@.len());
        assert("{room}"@.len() != "{entity}"@.len());
        assert("{room}"@[0] != "*"@[0]);
        assert("{entity}"@[0] != "*"@[0]);
        assert("{room}"@[0] != "**"@[0]);
        assert("{entity}"@[0] != "**"@[0]);
    }
    text::lemma_split_join(pieces, '/');
    let raw = key_text(k);
    assert(text::split_at_each(raw, '/') == pieces);
    if raw.len() == 0 {
        assert(text::split_at_each(raw, '/')[0].len() == 0);
    }
    assert(!pieces.contains(Seq::empty()));
    assert(parsed(raw)->Ok_0 =~= k);
}

impl KeyExpr {
    pub fn parse(raw: &str) -> (r: Result<KeyExpr, String>)
        ensures
            match r {
                Ok(k) => parsed(raw@) == Ok::<Seq<SegmentView>, Seq<char>>(k@),
                Err(e) => parsed(raw@) == Err::<Seq<SegmentView>, Seq<char>>(e@),
            },
    {
        let pieces = split(raw, '/');
        let ghost all = text::views(pieces@);
        if raw.unicode_len() == 0 {
            return Err("key is empty".to_owned());
        }
        let mut segments: Vec<Segment> = Vec::new();
        let mut i: usize = 0;
        while i < pieces.len()
            invariant
                i <= pieces@.len(),
                all == text::views(pieces@),
                all == text::split_at_each(raw@, '/'),
                raw@.len() > 0,
                segments@.len() == i,
                forall|j: int| 0 <= j < i ==> (#[trigger] segments@[j])@ == segment_of(all[j]),
                forall|j: int| 0 <= j < i ==> (#[trigger] all[j]) != Seq::<char>::empty(),
            decreases pieces@.len() - i,
        {
            let piece = pieces[i].as_str();
            assert(piece@ == all[i as int]);
            let segment = if str_eq(piece, "*") {
                Segment::Any
            } else if str_eq(piece, "**") {
                Segment::AnyRec
            } else if str_eq(piece, "{room}") {
                Segment::RoomTemplate
            } else if str_eq(piece, "{entity}") {
                Segment::EntityTemplate
            } else {
                Segment::Literal(pieces[i].clone())
            };
            if piece.unicode_len() == 0 {
                assert(all[i as int] =~= Seq::<char>::empty());
                return Err(cat3("\"", raw, "\" has an empty segment"));
            }
            segments.push(segment);
            i = i + 1;
        }
        let k = KeyExpr(segments);
        assert(!all.contains(Seq::empty()));
        assert(k@ =~= parsed(raw@)->Ok_0);
        Ok(k)
    }

    pub fn class(&self) -> (r: Option<&str>)
        ensures
            match r {
                Some(c) => class_of(self@) == Some(c@),
                None => class_of(self@) == None::<Seq<char>>,
            },
    {
        if self.0.len() > 1 {
            match self.0[1].literal() {
                Some(c) => Some(c.as_str()),
                None => None,
            }
        } else {
            None
        }
    }

    /// Whether the class segment is this literal.
    pub fn class_is(&self, class: &str) -> (r: bool)
        ensures
            r == (class_of(self@) == Some(class@)),
    {
        match self.class() {
            Some(c) => str_eq(c, class),
            None => false,
        }
    }

    pub fn has_template(&self) -> (r: bool)
        ensures
            r == templated(self@),
    {
        let mut i: usize = 0;
        while i < self.0.len()
            invariant
                i <= self.0@.len(),
                forall|j: int|
                    0 <= j < i ==> !(#[trigger] self@[j] is RoomTemplate || self@[j] is EntityTemplate),
            decreases self.0@.len() - i,
        {
            assert(self@[i as int] == self.0@[i as int]@);
            match self.0[i] {
                Segment::RoomTemplate | Segment::EntityTemplate => {
                    return true;
                },
                _ => {},
            }
            i = i + 1;
        }
        false
    }

    fn has_any_rec(&self) -> (r: bool)
        ensures
            r == self@.contains(SegmentView::AnyRec),
    {
        let mut i: usize = 0;
        while i < self.0.len()
            invariant
                i <= self.0@.len(),
                forall|j: int| 0 <= j < i ==> !(#[trigger] self@[j] is AnyRec),
            decreases self.0@.len() - i,
        {
            assert(self@[i as int] == self.0@[i as int]@);
            match self.0[i] {
                Segment::AnyRec => {
                    return true;
                },
                _ => {},
            }
            i = i + 1;
        }
        false
    }

    /// Checks conformance with `home/{class}/{room}/{entity}/{aspect}` (for
    /// the entity-addressed classes) or `home/{class}/...` (the others). A
    /// forecast carries one segment more, its source.
    pub fn check_schema(&self, raw: &str) -> (r: Result<(), String>)
        ensures
            match r {
                Ok(_) => schema_fault(self@, raw@) == None::<Seq<char>>,
                Err(e) => schema_fault(self@, raw@) == Some(e@),
            },
    {
        let rooted = self.0.len() > 0 && match self.0[0].literal() {
            Some(h) => str_eq(h.as_str(), "home"),
            None => false,
        };
        if !rooted {
            return Err(cat3("\"", raw, "\" does not start with \"home/\""));
        }
        let class = match self.class() {
            Some(c) => c,
            None => {
                return Err(cat3("\"", raw, "\" needs a literal class segment after \"home/\""));
            },
        };
        if !is_listed(&CLASSES, class) {
            return Err(cat5("\"", raw, "\" has unknown class \"", class, "\""));
        }
        let least: usize = if str_eq(class, "forecast") {
            6
        } else if is_listed(&ENTITY_ADDRESSED, class) {
            5
        } else {
            3
        };
        if !self.has_any_rec() && self.0.len() < least {
            return Err(
                cat3(
                    "\"",
                    raw,
                    if least == 6 {
                        "\" needs room/entity/aspect/source segments after the class"
                    } else if least == 5 {
                        "\" needs room/entity/aspect segments after the class"
                    } else {
                        "\" needs a segment after the class"
                    },
                ),
            );
        }
        Ok(())
    }

    /// The room slot exists only on the entity-addressed classes.
    pub fn room_slot(&self) -> (r: Option<&Segment>)
        ensures
            match r {
                Some(s) => room_of(self@) == Some(s@),
                None => room_of(self@) == None::<SegmentView>,
            },
    {
        match self.class() {
            Some(c) => if is_listed(&ENTITY_ADDRESSED, c) && self.0.len() > 2 {
                Some(&self.0[2])
            } else {
                None
            },
            None => None,
        }
    }

    /// The same expression once more.
    pub fn copy(&self) -> (r: KeyExpr)
        ensures
            r@ == self@,
    {
        let mut segments: Vec<Segment> = Vec::new();
        let mut i: usize = 0;
        while i < self.0.len()
            invariant
                i <= self.0@.len(),
                segments@.len() == i,
                forall|j: int| 0 <= j < i ==> (#[trigger] segments@[j])@ == self@[j],
            decreases self.0@.len() - i,
        {
            segments.push(self.0[i].copy());
            i = i + 1;
        }
        let k = KeyExpr(segments);
        assert(k@ =~= self@);
        k
    }

    /// Returns a copy with the room slot replaced by a literal room name.
    pub fn with_room(&self, room: &str) -> (r: KeyExpr)
        requires
            self@.len() > 2,
        ensures
            r@ == self@.update(2, SegmentView::Literal(room@)),
    {
        let mut k = self.copy();
        let ghost before = k.0@;
        k.0.set(2, Segment::Literal(room.to_owned()));
        assert(k@ =~= text::views(before).update(2, SegmentView::Literal(room@)));
        k
    }

    /// Returns a copy with templates substituted for a concrete entity.
    pub fn substitute(&self, room: &str, entity: &str) -> (r: KeyExpr)
        ensures
            r@ == substituted(self@, room@, entity@),
    {
        let mut segments: Vec<Segment> = Vec::new();
        let mut i: usize = 0;
        while i < self.0.len()
            invariant
                i <= self.0@.len(),
                segments@.len() == i,
                forall|j: int|
                    0 <= j < i ==> (#[trigger] segments@[j])@ == substituted(
                        self@,
                        room@,
                        entity@,
                    )[j],
            decreases self.0@.len() - i,
        {
            assert(self@[i as int] == self.0@[i as int]@);
            let segment = match &self.0[i] {
                Segment::RoomTemplate => Segment::Literal(room.to_owned()),
                Segment::EntityTemplate => Segment::Literal(entity.to_owned()),
                other => other.copy(),
            };
            segments.push(segment);
            i = i + 1;
        }
        let k = KeyExpr(segments);
        assert(k@ =~= substituted(self@, room@, entity@));
        k
    }

    fn reaches_from(&self, i: usize, prefix: &[&str], j: usize) -> (r: bool)
        requires
            i <= self.0@.len(),
            j <= prefix@.len(),
        ensures
            r == reaches(self@.skip(i as int), text::views(prefix@).skip(j as int)),
        decreases self.0@.len() - i + prefix@.len() - j,
    {
        let ghost k = self@.skip(i as int);
        let ghost p = text::views(prefix@).skip(j as int);
        if j >= prefix.len() {
            return true;
        }
        if i >= self.0.len() {
            return false;
        }
        proof {
            assert(k.drop_first() =~= self@.skip(i + 1));
            assert(p.drop_first() =~= text::views(prefix@).skip(j + 1));
            assert(k[0] == self.0@[i as int]@);
            assert(p[0] == prefix@[j as int]@);
        }
        match &self.0[i] {
            Segment::AnyRec => self.reaches_from(i + 1, prefix, j) || self.reaches_from(
                i,
                prefix,
                j + 1,
            ),
            Segment::Literal(l) => str_eq(l.as_str(), prefix[j]) && self.reaches_from(
                i + 1,
                prefix,
                j + 1,
            ),
            _ => self.reaches_from(i + 1, prefix, j + 1),
        }
    }

    /// Whether this expression can match keys under the given literal prefix
    /// (an entity's subtree: `home/{class}/{room}/{name}/...`). Aspect
    /// segments beyond the prefix are assumed satisfiable.
    pub fn matches_prefix(&self, prefix: &[&str]) -> (r: bool)
        ensures
            r == covers(self@, text::views(prefix@)),
    {
        proof {
            lemma_covers(self@, text::views(prefix@));
            assert(self@.skip(0) =~= self@);
            assert(text::views(prefix@).skip(0) =~= text::views(prefix@));
        }
        self.reaches_from(0, prefix, 0)
    }

    pub fn to_string(&self) -> (r: String)
        ensures
            r@ == key_text(self@),
    {
        let mut pieces: Vec<String> = Vec::new();
        let mut i: usize = 0;
        while i < self.0.len()
            invariant
                i <= self.0@.len(),
                pieces@.len() == i,
                forall|j: int| 0 <= j < i ==> (#[trigger] pieces@[j])@ == segment_text(self@[j]),
            decreases self.0@.len() - i,
        {
            pieces.push(self.0[i].to_string());
            i = i + 1;
        }
        assert(text::views(pieces@) =~= key_pieces(self@));
        text::join(&pieces, "/")
    }
}

} // verus!
