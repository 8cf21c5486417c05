//! Stable identity for a Rex module in the abstract module namespace.
//!
//! A module ID is only a qualified Rex name, such as `std.prelude` or
//! `ffmpeg.formats.av1`; it does not record where the module source came
//! from.

use vstd::prelude::*;

use crate::text::{
    ascii_alpha, ascii_digit, chars_of, is_ascii_alpha, is_ascii_digit, is_unicode_whitespace,
    string_from_chars, unicode_whitespace,
};

verus! {

/// Why a module id was rejected.
#[derive(Clone, Copy, Debug, PartialEq, Eq, Structural)]
pub enum ModuleIdErrorKind {
    Empty,
    Whitespace,
    EmptySegment,
    BadStart,
    BadChar,
}

impl ModuleIdErrorKind {
    pub open spec fn message(self) -> &'static str {
        match self {
            ModuleIdErrorKind::Empty => "module id cannot be empty",
            ModuleIdErrorKind::Whitespace => "module id cannot contain leading or trailing whitespace",
            ModuleIdErrorKind::EmptySegment => "module id segment cannot be empty",
            ModuleIdErrorKind::BadStart => "module id segment must start with a letter or underscore",
            ModuleIdErrorKind::BadChar => "module id segment must contain only letters, digits, or underscores",
        }
    }
}

/// A rejected module id: the offending input and the reason.
#[derive(Debug)]
pub struct ModuleIdError {
    input: String,
    kind: ModuleIdErrorKind,
}

impl View for ModuleIdError {
    type V = (Seq<char>, ModuleIdErrorKind);

    closed spec fn view(&self) -> (Seq<char>, ModuleIdErrorKind) {
        (self.input@, self.kind)
    }
}

impl ModuleIdError {
    pub fn new(input: String, kind: ModuleIdErrorKind) -> (e: Self)
        ensures
            e@ == (input@, kind),
    {
        ModuleIdError { input, kind }
    }

    pub fn input(&self) -> (s: &str)
        ensures
            s@ == self@.0,
    {
        self.input.as_str()
    }

    pub fn kind(&self) -> (k: ModuleIdErrorKind)
        ensures
            k == self@.1,
    {
        self.kind
    }

    pub fn reason(&self) -> (r: &'static str)
        ensures
            r == self@.1.message(),
    {
        match self.kind {
            ModuleIdErrorKind::Empty => "module id cannot be empty",
            ModuleIdErrorKind::Whitespace => "module id cannot contain leading or trailing whitespace",
            ModuleIdErrorKind::EmptySegment => "module id segment cannot be empty",
            ModuleIdErrorKind::BadStart => "module id segment must start with a letter or underscore",
            ModuleIdErrorKind::BadChar => "module id segment must contain only letters, digits, or underscores",
        }
    }
}

/// A first character of a segment: a letter or an underscore.
pub open spec fn is_segment_start(c: char) -> bool {
    c == '_' || is_ascii_alpha(c)
}

/// A later character of a segment: a letter, a digit or an underscore.
pub open spec fn is_segment_char(c: char) -> bool {
    c == '_' || is_ascii_alpha(c) || is_ascii_digit(c)
}

/// What is wrong with one segment, if anything: the error's input and kind.
pub open spec fn segment_error(seg: Seq<char>) -> Option<(Seq<char>, ModuleIdErrorKind)> {
    if seg.len() == 0 {
        Some((Seq::empty(), ModuleIdErrorKind::EmptySegment))
    } else if !is_segment_start(seg[0]) {
        Some((seg, ModuleIdErrorKind::BadStart))
    } else if exists|i: int| 1 <= i < seg.len() && !is_segment_char(#[trigger] seg[i]) {
        Some((seg, ModuleIdErrorKind::BadChar))
    } else {
        None
    }
}

/// Every segment before position `n` is valid.
pub open spec fn valid_before(segs: Seq<Seq<char>>, n: int) -> bool {
    forall|j: int| 0 <= j < n ==> (#[trigger] segment_error(segs[j])) is None
}

/// The segments of a module id: at least one, each valid.
pub open spec fn valid_id(segs: Seq<Seq<char>>) -> bool {
    segs.len() > 0 && valid_before(segs, segs.len() as int)
}

/// Position `i` holds the first invalid segment.
pub open spec fn is_first_invalid(segs: Seq<Seq<char>>, i: int) -> bool {
    &&& 0 <= i < segs.len()
    &&& segment_error(segs[i]) is Some
    &&& valid_before(segs, i)
}

/// The outcome of building a module id from `segs`.
pub open spec fn from_segments_spec(segs: Seq<Seq<char>>) -> Result<
    Seq<Seq<char>>,
    (Seq<char>, ModuleIdErrorKind),
> {
    if segs.len() == 0 {
        Err((Seq::empty(), ModuleIdErrorKind::Empty))
    } else if valid_before(segs, segs.len() as int) {
        Ok(segs)
    } else {
        Err(segment_error(segs[choose|i: int| is_first_invalid(segs, i)]).unwrap())
    }
}

/// `s` cut at every `.`, keeping empty pieces (what `str::split('.')` yields).
pub open spec fn split_dots(s: Seq<char>) -> Seq<Seq<char>>
    decreases s.len(),
{
    if s.len() == 0 {
        seq![Seq::empty()]
    } else {
        let rest = split_dots(s.drop_last());
        if s.last() == '.' {
            rest.push(Seq::empty())
        } else {
            rest.update(rest.len() - 1, rest.last().push(s.last()))
        }
    }
}

/// The outcome of parsing `s` as a module id.
pub open spec fn parse_spec(s: Seq<char>) -> Result<Seq<Seq<char>>, (Seq<char>, ModuleIdErrorKind)> {
    if s.len() == 0 {
        Err((s, ModuleIdErrorKind::Empty))
    } else if is_unicode_whitespace(s[0]) || is_unicode_whitespace(s.last()) {
        Err((s, ModuleIdErrorKind::Whitespace))
    } else {
        match from_segments_spec(split_dots(s)) {
            Ok(segs) => Ok(segs),
            Err(e) => Err((s, e.1)),
        }
    }
}

/// The segments joined with `.`.
pub open spec fn join_dots(segs: Seq<Seq<char>>) -> Seq<char>
    decreases segs.len(),
{
    if segs.len() == 0 {
        Seq::empty()
    } else if segs.len() == 1 {
        segs[0]
    } else {
        join_dots(segs.drop_last()) + seq!['.'] + segs.last()
    }
}

/// A module id: a non-empty sequence of valid segments.
#[derive(Debug)]
pub struct ModuleId {
    segments: Vec<String>,
}

pub open spec fn strings_view(v: Seq<String>) -> Seq<Seq<char>> {
    v.map_values(|s: String| s@)
}

impl ModuleId {
    /// Every module id has at least one segment and every segment is valid.
    #[verifier::type_invariant]
    closed spec fn inv(self) -> bool {
        &&& self.segments@.len() > 0
        &&& valid_before(strings_view(self.segments@), self.segments@.len() as int)
    }
}

impl View for ModuleId {
    type V = Seq<Seq<char>>;

    closed spec fn view(&self) -> Seq<Seq<char>> {
        strings_view(self.segments@)
    }
}

proof fn lemma_first_invalid_unique(segs: Seq<Seq<char>>, i: int, k: int)
    requires
        is_first_invalid(segs, i),
        is_first_invalid(segs, k),
    ensures
        i == k,
{
    if i < k {
        assert(segment_error(segs[i]) is None);
    } else if k < i {
        assert(segment_error(segs[k]) is None);
    }
}

fn copy_strings(v: &Vec<String>, lo: usize, hi: usize) -> (res: Vec<String>)
    requires
        lo <= hi <= v.len(),
    ensures
        res@ == v@.subrange(lo as int, hi as int),
{
    let mut res: Vec<String> = Vec::new();
    let mut i = lo;
    while i < hi
        invariant
            lo <= i <= hi <= v.len(),
            res@ == v@.subrange(lo as int, i as int),
        decreases hi - i,
    {
        res.push(v[i].clone());
        i += 1;
    }
    res
}

/// Checks one segment of a module id.
pub fn validate_segment(segment: &String) -> (res: Result<(), ModuleIdError>)
    ensures
        match res {
            Ok(()) => segment_error(segment@) is None,
            Err(e) => segment_error(segment@) == Some(e@),
        },
{
    let chars = chars_of(segment.as_str());
    if chars.len() == 0 {
        return Err(ModuleIdError::new(String::new(), ModuleIdErrorKind::EmptySegment));
    }
    let first = chars[0];
    if !(first == '_' || ascii_alpha(first)) {
        return Err(ModuleIdError::new(segment.clone(), ModuleIdErrorKind::BadStart));
    }
    let mut i: usize = 1;
    while i < chars.len()
        invariant
            1 <= i <= chars.len(),
            chars@ == segment@,
            is_segment_start(chars@[0]),
            forall|j: int| 1 <= j < i ==> is_segment_char(#[trigger] chars@[j]),
        decreases chars.len() - i,
    {
        let c = chars[i];
        if !(c == '_' || ascii_alpha(c) || ascii_digit(c)) {
            assert(!is_segment_char(segment@[i as int]));
            return Err(ModuleIdError::new(segment.clone(), ModuleIdErrorKind::BadChar));
        }
        i += 1;
    }
    Ok(())
}

impl ModuleId {
    /// Builds a module id from its segments.
    pub fn from_segments(segments: Vec<String>) -> (res: Result<ModuleId, ModuleIdError>)
        ensures
            match res {
                Ok(id) => from_segments_spec(strings_view(segments@)) == Ok::<
                    Seq<Seq<char>>,
                    (Seq<char>, ModuleIdErrorKind),
                >(id@) && valid_id(id@),
                Err(e) => from_segments_spec(strings_view(segments@)) == Err::<
                    Seq<Seq<char>>,
                    (Seq<char>, ModuleIdErrorKind),
                >(e@),
            },
    {
        let ghost segs = strings_view(segments@);
        if segments.len() == 0 {
            return Err(ModuleIdError::new(String::new(), ModuleIdErrorKind::Empty));
        }
        let mut i: usize = 0;
        while i < segments.len()
            invariant
                0 <= i <= segments.len(),
                segs == strings_view(segments@),
                valid_before(segs, i as int),
            decreases segments.len() - i,
        {
            match validate_segment(&segments[i]) {
                Ok(()) => {},
                Err(e) => {
                    proof {
                        assert(is_first_invalid(segs, i as int));
                        let k = choose|k: int| is_first_invalid(segs, k);
                        lemma_first_invalid_unique(segs, i as int, k);
                    }
                    return Err(e);
                },
            }
            i += 1;
        }
        assert(strings_view(segments@) =~= segs);
        Ok(ModuleId { segments })
    }

    /// Parses a dotted module id such as `std.prelude`.
    pub fn parse(input: &str) -> (res: Result<ModuleId, ModuleIdError>)
        ensures
            match res {
                Ok(id) => parse_spec(input@) == Ok::<
                    Seq<Seq<char>>,
                    (Seq<char>, ModuleIdErrorKind),
                >(id@) && valid_id(id@),
                Err(e) => parse_spec(input@) == Err::<
                    Seq<Seq<char>>,
                    (Seq<char>, ModuleIdErrorKind),
                >(e@),
            },
    {
        let chars = chars_of(input);
        if chars.len() == 0 {
            return Err(ModuleIdError::new(string_from_chars(&chars), ModuleIdErrorKind::Empty));
        }
        if unicode_whitespace(chars[0]) || unicode_whitespace(chars[chars.len() - 1]) {
            return Err(
                ModuleIdError::new(string_from_chars(&chars), ModuleIdErrorKind::Whitespace),
            );
        }
        let mut segments: Vec<String> = Vec::new();
        let mut current: Vec<char> = Vec::new();
        let mut i: usize = 0;
        assert(chars@.take(0) =~= Seq::<char>::empty());
        assert(strings_view(segments@).push(current@) =~= seq![Seq::<char>::empty()]);
        while i < chars.len()
            invariant
                0 <= i <= chars.len(),
                chars@ == input@,
                strings_view(segments@).push(current@) == split_dots(chars@.take(i as int)),
            decreases chars.len() - i,
        {
            let c = chars[i];
            let ghost prefix = chars@.take(i as int + 1);
            assert(prefix.drop_last() =~= chars@.take(i as int));
            assert(prefix.last() == c);
            if c == '.' {
                let piece = string_from_chars(&current);
                segments.push(piece);
                current = Vec::new();
                assert(strings_view(segments@).push(current@) =~= split_dots(
                    chars@.take(i as int),
                ).push(Seq::empty()));
            } else {
                let ghost before = strings_view(segments@).push(current@);
                current.push(c);
                assert(strings_view(segments@).push(current@) =~= before.update(
                    before.len() - 1,
                    before.last().push(c),
                ));
            }
            i += 1;
        }
        let last = string_from_chars(&current);
        segments.push(last);
        assert(chars@.take(chars.len() as int) =~= chars@);
        assert(strings_view(segments@) =~= split_dots(chars@));
        match ModuleId::from_segments(segments) {
            Ok(id) => Ok(id),
            Err(e) => Err(ModuleIdError::new(string_from_chars(&chars), e.kind())),
        }
    }

    /// The segments of this module id.
    pub fn segments(&self) -> (res: &[String])
        ensures
            strings_view(res@) == self@,
            self@.len() > 0,
            valid_before(self@, self@.len() as int),
    {
        proof {
            use_type_invariant(self);
        }
        self.segments.as_slice()
    }

    /// The enclosing module id, if this id has more than one segment.
    pub fn parent(&self) -> (res: Option<ModuleId>)
        ensures
            match res {
                None => self@.len() <= 1,
                Some(p) => self@.len() > 1 && p@ == self@.drop_last() && valid_id(p@),
            },
    {
        proof {
            use_type_invariant(self);
        }
        let n = self.segments.len();
        if n <= 1 {
            return None;
        }
        let segments = copy_strings(&self.segments, 0, n - 1);
        assert(strings_view(segments@) =~= strings_view(self.segments@).drop_last());
        Some(ModuleId { segments })
    }

    /// Another module id with the same segments.
    pub fn copy(&self) -> (res: ModuleId)
        ensures
            res@ == self@,
            valid_id(res@),
    {
        proof {
            use_type_invariant(self);
        }
        let segments = copy_strings(&self.segments, 0, self.segments.len());
        assert(self.segments@.subrange(0, self.segments@.len() as int) =~= self.segments@);
        ModuleId { segments }
    }

    /// This module id followed by the segments of `child`.
    pub fn join(&self, child: &ModuleId) -> (res: ModuleId)
        ensures
            res@ == self@ + child@,
            valid_id(res@),
    {
        proof {
            use_type_invariant(self);
            use_type_invariant(child);
        }
        let mut segments = copy_strings(&self.segments, 0, self.segments.len());
        let mut tail = copy_strings(&child.segments, 0, child.segments.len());
        segments.append(&mut tail);
        assert(self.segments@.subrange(0, self.segments@.len() as int) =~= self.segments@);
        assert(child.segments@.subrange(0, child.segments@.len() as int) =~= child.segments@);
        assert(strings_view(segments@) =~= strings_view(self.segments@) + strings_view(
            child.segments@,
        ));
        ModuleId { segments }
    }

    /// The dotted rendering of this module id, such as `std.prelude`.
    pub fn to_string(&self) -> (res: String)
        ensures
            res@ == join_dots(self@),
    {
        let ghost segs = self@;
        let mut out: Vec<char> = Vec::new();
        let mut k: usize = 0;
        while k < self.segments.len()
            invariant
                0 <= k <= self.segments.len(),
                segs == strings_view(self.segments@),
                out@ == join_dots(segs.take(k as int)),
            decreases self.segments.len() - k,
        {
            let ghost next = segs.take(k as int + 1);
            assert(next.drop_last() =~= segs.take(k as int));
            if k > 0 {
                out.push('.');
            }
            let mut piece = chars_of(self.segments[k].as_str());
            out.append(&mut piece);
            proof {
                if k == 0 {
                    assert(segs.take(0) =~= Seq::<Seq<char>>::empty());
                    assert(out@ =~= segs[0]);
                } else {
                    assert(out@ =~= join_dots(segs.take(k as int)) + seq!['.'] + segs[k as int]);
                }
            }
            k += 1;
        }
        assert(segs.take(segs.len() as int) =~= segs);
        string_from_chars(&out)
    }
}

/// Whether `s` holds no `.`.
pub open spec fn dot_free(s: Seq<char>) -> bool {
    forall|i: int| 0 <= i < s.len() ==> s[i] != '.'
}

proof fn lemma_split_dot_free(s: Seq<char>)
    requires
        dot_free(s),
    ensures
        split_dots(s) == seq![s],
    decreases s.len(),
{
    if s.len() > 0 {
        lemma_split_dot_free(s.drop_last());
        assert(s.drop_last().push(s.last()) =~= s);
        assert(seq![s.drop_last()].update(0, s) =~= seq![s]);
    } else {
        assert(s =~= Seq::<char>::empty());
    }
}

proof fn lemma_split_after_dot(x: Seq<char>, y: Seq<char>)
    requires
        dot_free(y),
    ensures
        split_dots(x + seq!['.'] + y) == split_dots(x) + seq![y],
    decreases y.len(),
{
    let s = x + seq!['.'] + y;
    if y.len() == 0 {
        assert(s.drop_last() =~= x);
        assert(s.last() == '.');
        assert(y =~= Seq::<char>::empty());
        assert(split_dots(x).push(Seq::<char>::empty()) =~= split_dots(x) + seq![y]);
    } else {
        lemma_split_after_dot(x, y.drop_last());
        assert(s.drop_last() =~= x + seq!['.'] + y.drop_last());
        assert(s.last() == y.last());
        let rest = split_dots(x) + seq![y.drop_last()];
        assert(y.drop_last().push(y.last()) =~= y);
        assert(rest.update(rest.len() - 1, rest.last().push(s.last())) =~= split_dots(x) + seq![y]);
    }
}

proof fn lemma_split_join(segs: Seq<Seq<char>>)
    requires
        segs.len() > 0,
        forall|j: int| 0 <= j < segs.len() ==> dot_free(#[trigger] segs[j]),
    ensures
        split_dots(join_dots(segs)) == segs,
    decreases segs.len(),
{
    if segs.len() == 1 {
        lemma_split_dot_free(segs[0]);
        assert(seq![segs[0]] =~= segs);
    } else {
        let init = segs.drop_last();
        assert forall|j: int| 0 <= j < init.len() implies dot_free(#[trigger] init[j]) by {
            assert(init[j] == segs[j]);
        }
        lemma_split_join(init);
        assert(dot_free(segs[segs.len() - 1]));
        lemma_split_after_dot(join_dots(init), segs.last());
        assert(init + seq![segs.last()] =~= segs);
    }
}

proof fn lemma_join_ends(segs: Seq<Seq<char>>)
    requires
        segs.len() > 0,
        forall|j: int| 0 <= j < segs.len() ==> (#[trigger] segs[j]).len() > 0,
    ensures
        join_dots(segs).len() > 0,
        join_dots(segs)[0] == segs[0][0],
        join_dots(segs).last() == segs.last().last(),
    decreases segs.len(),
{
    if segs.len() > 1 {
        let init = segs.drop_last();
        assert forall|j: int| 0 <= j < init.len() implies (#[trigger] init[j]).len() > 0 by {
            assert(init[j] == segs[j]);
        }
        lemma_join_ends(init);
        assert(segs[segs.len() - 1].len() > 0);
        assert(init[0] == segs[0]);
    }
}

/// A module id reads back from its dotted rendering: parsing the segments
/// joined with `.` gives the same segments.
pub proof fn law_parse_renders_back(segs: Seq<Seq<char>>)
    requires
        segs.len() > 0,
        valid_before(segs, segs.len() as int),
    ensures
        parse_spec(join_dots(segs)) == Ok::<Seq<Seq<char>>, (Seq<char>, ModuleIdErrorKind)>(segs),
{
    assert forall|j: int| 0 <= j < segs.len() implies dot_free(#[trigger] segs[j]) && segs[j].len() > 0 by {
        assert(segment_error(segs[j]) is None);
        let g = segs[j];
        assert forall|i: int| 0 <= i < g.len() implies g[i] != '.' by {
            if i > 0 {
                assert(is_segment_char(g[i]));
            }
        }
    }
    lemma_split_join(segs);
    lemma_join_ends(segs);
    let s = join_dots(segs);
    let last = segs[segs.len() - 1];
    assert(segment_error(last) is None);
    assert(segment_error(segs[0]) is None);
    assert(is_segment_start(s[0]));
    if last.len() > 1 {
        assert(is_segment_char(last[last.len() - 1]));
    }
    assert(!is_unicode_whitespace(s[0]));
    assert(!is_unicode_whitespace(s.last()));
}


proof fn lemma_split_len(s: Seq<char>)
    ensures
        split_dots(s).len() >= 1,
    decreases s.len(),
{
    if s.len() > 0 {
        lemma_split_len(s.drop_last());
    }
}

/// Joining the pieces of `s` cut at its dots gives `s` back.
proof fn lemma_join_split(s: Seq<char>)
    ensures
        join_dots(split_dots(s)) == s,
    decreases s.len(),
{
    if s.len() == 0 {
        assert(join_dots(seq![Seq::<char>::empty()]) == Seq::<char>::empty());
    } else {
        let x = s.drop_last();
        let rest = split_dots(x);
        lemma_join_split(x);
        lemma_split_len(x);
        if s.last() == '.' {
            let y = rest.push(Seq::empty());
            assert(y.drop_last() =~= rest);
            assert(join_dots(y) =~= x + seq!['.'] + Seq::<char>::empty());
            assert(s =~= x + seq!['.']);
        } else {
            let n = rest.len();
            let y = rest.update(n - 1, rest.last().push(s.last()));
            if n == 1 {
                assert(join_dots(y) == y[0]);
                assert(join_dots(rest) == rest[0]);
            } else {
                assert(y.drop_last() =~= rest.drop_last());
                assert(join_dots(y) == join_dots(rest.drop_last()) + seq!['.'] + rest.last().push(s.last()));
                assert(join_dots(rest) == join_dots(rest.drop_last()) + seq!['.'] + rest.last());
            }
            assert(s =~= x.push(s.last()));
            assert(join_dots(y) =~= x.push(s.last()));
        }
    }
}

/// Text that parses as a module id is the dotted rendering of that id.
pub proof fn law_parsed_text_renders(s: Seq<char>)
    ensures
        parse_spec(s) matches Ok(segs) ==> join_dots(segs) == s,
{
    lemma_join_split(s);
}

/// The parent of an id joined with a one-segment id is the first id: the
/// join has more than one segment, and dropping the last gives the first id.
pub proof fn law_parent_of_join(a: ModuleId, b: ModuleId)
    requires
        valid_id(a@),
        b@.len() == 1,
    ensures
        (a@ + b@).len() > 1,
        (a@ + b@).drop_last() == a@,
{
    assert((a@ + b@).drop_last() =~= a@);
}

} // verus!
