//! Migration file names: `<version>_<slug>.<up|down>.<extension>`.

use vstd::prelude::*;
use crate::reserved::{is_reserved_chars, is_reserved_word, BackendKind};
use crate::text::{
    chars_of, decimal_digits, decimal_u64, decimal_value, find_char, find_from,
    is_canonical_decimal, is_digit, lemma_decimal_digits_value, lemma_decimal_value_digits,
    lemma_find_from, lemma_find_from_unique, parse_decimal, push_all, push_decimal, slice_of,
    string_of,
};

verus! {

/// Whether a migration moves the store forward or takes a change back.
#[derive(Clone, Copy, Debug, PartialEq, Eq, Structural)]
pub enum Direction {
    Up,
    Down,
}

/// Identity of a migration: a sortable version, a readable slug and a direction.
#[derive(Clone, Debug, PartialEq, Eq)]
pub struct MigrationId {
    pub version: u64,
    pub slug: String,
    pub direction: Direction,
}

/// Mathematical content of a [`MigrationId`].
pub struct MigrationIdView {
    pub version: u64,
    pub slug: Seq<char>,
    pub direction: Direction,
}

impl View for MigrationId {
    type V = MigrationIdView;

    open spec fn view(&self) -> MigrationIdView {
        MigrationIdView { version: self.version, slug: self.slug@, direction: self.direction }
    }
}

/// A file name taken apart: the migration's identity and the file extension.
#[derive(Clone, Debug, PartialEq, Eq)]
pub struct Parsed {
    pub id: MigrationId,
    pub extension: String,
}

/// Mathematical content of a [`Parsed`] name.
pub struct ParsedView {
    pub id: MigrationIdView,
    pub extension: Seq<char>,
}

impl View for Parsed {
    type V = ParsedView;

    open spec fn view(&self) -> ParsedView {
        ParsedView { id: self.id@, extension: self.extension@ }
    }
}

impl Parsed {
    /// An independent copy with the same content.
    pub fn duplicate(&self) -> (r: Parsed)
        ensures
            r@ == self@,
    {
        Parsed {
            id: MigrationId {
                version: self.id.version,
                slug: self.id.slug.clone(),
                direction: self.id.direction,
            },
            extension: self.extension.clone(),
        }
    }
}

/// Why a file name was not accepted.
#[derive(Clone, Copy, Debug, PartialEq, Eq, Structural)]
pub enum FilenameError {
    /// The name does not have the shape `<version>_<slug>.<up|down>.<extension>`.
    InvalidFilename,
    /// The name has the shape, but its slug collides with a word that the
    /// backend reserves.
    ReservedWordInFilename,
}

/// An ASCII letter or digit.
pub open spec fn is_alphanumeric(c: char) -> bool {
    ('a' <= c && c <= 'z') || ('A' <= c && c <= 'Z') || is_digit(c)
}

/// Characters a slug may hold: ASCII letters, digits, `_` and `-`.
pub open spec fn is_slug_char(c: char) -> bool {
    is_alphanumeric(c) || c == '_' || c == '-'
}

/// A slug is non-empty and made of slug characters only.
pub open spec fn valid_slug(s: Seq<char>) -> bool {
    s.len() > 0 && forall|i: int| 0 <= i < s.len() ==> is_slug_char(#[trigger] s[i])
}

/// An extension is non-empty and made of ASCII letters and digits only.
pub open spec fn valid_extension(s: Seq<char>) -> bool {
    s.len() > 0 && forall|i: int| 0 <= i < s.len() ==> is_alphanumeric(#[trigger] s[i])
}

/// The word that spells a direction in a file name.
pub open spec fn direction_text(d: Direction) -> Seq<char> {
    match d {
        Direction::Up => seq!['u', 'p'],
        Direction::Down => seq!['d', 'o', 'w', 'n'],
    }
}

/// The direction a word spells, if any.
pub open spec fn direction_of(s: Seq<char>) -> Option<Direction> {
    if s == direction_text(Direction::Up) {
        Some(Direction::Up)
    } else if s == direction_text(Direction::Down) {
        Some(Direction::Down)
    } else {
        None
    }
}

/// `slug[from..to]` is a token: a maximal non-empty run without `_`.
pub open spec fn is_token(slug: Seq<char>, from: int, to: int) -> bool {
    &&& 0 <= from < to <= slug.len()
    &&& (from == 0 || slug[from - 1] == '_')
    &&& (to == slug.len() || slug[to] == '_')
    &&& forall|i: int| from <= i < to ==> slug[i] != '_'
}

/// Some token of the slug is reserved by the backend kind.
pub open spec fn has_reserved_token(slug: Seq<char>, kind: BackendKind) -> bool {
    exists|from: int, to: int|
        #[trigger] is_token(slug, from, to) && is_reserved_word(slug.subrange(from, to), kind)
}

/// `slug[from..to]` is a token together with the underscore that leads it.
/// The underscore stands at the start of the slug or behind another
/// underscore: it belongs to the word and does not part two tokens.
pub open spec fn is_led_token(slug: Seq<char>, from: int, to: int) -> bool {
    &&& 0 <= from < slug.len()
    &&& slug[from] == '_'
    &&& (from == 0 || slug[from - 1] == '_')
    &&& is_token(slug, from + 1, to)
}

/// Some token of the slug, taken with the underscore that leads it, is
/// reserved by the backend kind.
pub open spec fn has_reserved_led_token(slug: Seq<char>, kind: BackendKind) -> bool {
    exists|from: int, to: int|
        #[trigger] is_led_token(slug, from, to) && is_reserved_word(slug.subrange(from, to), kind)
}

/// The slug collides with a word that the backend kind reserves: the slug
/// as a whole is reserved, or one of its tokens is, or one of its tokens
/// taken with the underscore that leads it.
pub open spec fn slug_collides(slug: Seq<char>, kind: BackendKind) -> bool {
    is_reserved_word(slug, kind) || has_reserved_token(slug, kind) || has_reserved_led_token(
        slug,
        kind,
    )
}

/// The parts of a name that has the required shape, or `None` when it has not.
/// The version ends at the first `_`; the slug at the first `.` behind it; the
/// direction at the next `.`; the rest is the extension.
pub open spec fn shape_of(name: Seq<char>) -> Option<ParsedView> {
    let u = find_from(name, '_', 0);
    let d1 = find_from(name, '.', u + 1);
    let d2 = find_from(name, '.', d1 + 1);
    if u < name.len() && d1 < name.len() && d2 < name.len() {
        let version = decimal_u64(name.subrange(0, u));
        let slug = name.subrange(u + 1, d1);
        let direction = direction_of(name.subrange(d1 + 1, d2));
        let extension = name.subrange(d2 + 1, name.len() as int);
        if version is Some && valid_slug(slug) && direction is Some && valid_extension(
            extension,
        ) {
            Some(
                ParsedView {
                    id: MigrationIdView {
                        version: version.unwrap(),
                        slug: slug,
                        direction: direction.unwrap(),
                    },
                    extension: extension,
                },
            )
        } else {
            None
        }
    } else {
        None
    }
}

/// What parsing a name yields for a backend kind.
pub open spec fn parse_spec(name: Seq<char>, kind: BackendKind) -> Result<
    ParsedView,
    FilenameError,
> {
    match shape_of(name) {
        None => Err(FilenameError::InvalidFilename),
        Some(p) => if slug_collides(p.id.slug, kind) {
            Err(FilenameError::ReservedWordInFilename)
        } else {
            Ok(p)
        },
    }
}

/// The canonical file name of a parsed name: the version without leading zeros.
pub open spec fn format_spec(p: ParsedView) -> Seq<char> {
    decimal_digits(p.id.version as nat) + seq!['_'] + p.id.slug + seq!['.'] + direction_text(
        p.id.direction,
    ) + seq!['.'] + p.extension
}

/// A parsed name that some file name can stand for under the backend kind.
pub open spec fn valid_parsed(p: ParsedView, kind: BackendKind) -> bool {
    &&& valid_slug(p.id.slug)
    &&& valid_extension(p.extension)
    &&& !slug_collides(p.id.slug, kind)
}

/// The name with its version respelled without leading zeros and the rest kept.
pub open spec fn canonical_name(name: Seq<char>) -> Seq<char> {
    let u = find_from(name, '_', 0);
    decimal_digits(decimal_value(name.subrange(0, u))) + name.subrange(u, name.len() as int)
}

/// The version of the name is spelled without a superfluous leading zero.
pub open spec fn has_canonical_version(name: Seq<char>) -> bool {
    is_canonical_decimal(name.subrange(0, find_from(name, '_', 0)))
}

/// Whatever `parse` accepts is a valid parsed name.
pub proof fn lemma_parse_valid(name: Seq<char>, kind: BackendKind)
    requires
        parse_spec(name, kind) is Ok,
    ensures
        valid_parsed(parse_spec(name, kind).unwrap(), kind),
{
}

/// Formatting what `parse` accepted gives the name back, up to the spelling
/// of the version: `format(parse(name))` is the canonical form of `name`, and
/// is `name` itself when the version has no superfluous leading zero.
pub proof fn lemma_format_parse(name: Seq<char>, kind: BackendKind)
    requires
        parse_spec(name, kind) is Ok,
    ensures
        format_spec(parse_spec(name, kind).unwrap()) == canonical_name(name),
        has_canonical_version(name) ==> format_spec(parse_spec(name, kind).unwrap()) == name,
{
    let p = parse_spec(name, kind).unwrap();
    let u = find_from(name, '_', 0);
    let d1 = find_from(name, '.', u + 1);
    let d2 = find_from(name, '.', d1 + 1);
    lemma_find_from(name, '_', 0);
    lemma_find_from(name, '.', u + 1);
    lemma_find_from(name, '.', d1 + 1);
    let digits = name.subrange(0, u);
    let word = name.subrange(d1 + 1, d2);
    assert(word == direction_text(p.id.direction));
    let tail = seq!['_'] + p.id.slug + seq!['.'] + direction_text(p.id.direction) + seq!['.']
        + p.extension;
    assert(tail =~= name.subrange(u, name.len() as int));
    assert(format_spec(p) =~= decimal_digits(p.id.version as nat) + tail);
    if has_canonical_version(name) {
        lemma_decimal_value_digits(digits);
        assert(digits + name.subrange(u, name.len() as int) =~= name);
    }
}

/// Parsing the canonical name of a valid parsed name gives it back.
pub proof fn lemma_parse_format(p: ParsedView, kind: BackendKind)
    requires
        valid_parsed(p, kind),
    ensures
        parse_spec(format_spec(p), kind) == Ok::<ParsedView, FilenameError>(p),
        has_canonical_version(format_spec(p)),
{
    let digits = decimal_digits(p.id.version as nat);
    let word = direction_text(p.id.direction);
    let name = format_spec(p);
    lemma_decimal_digits_value(p.id.version as nat);
    let u = digits.len() as int;
    let d1 = u + 1 + p.id.slug.len();
    let d2 = d1 + 1 + word.len();
    assert(name.len() == d2 + 1 + p.extension.len());
    assert forall|i: int| 0 <= i < u implies name[i] != '_' by {
        assert(name[i] == digits[i]);
        assert(is_digit(digits[i]));
    }
    assert(name[u] == '_');
    lemma_find_from_unique(name, '_', 0, u);
    assert forall|i: int| u + 1 <= i < d1 implies name[i] != '.' by {
        assert(name[i] == p.id.slug[i - (u + 1)]);
        assert(is_slug_char(p.id.slug[i - (u + 1)]));
    }
    assert(name[d1] == '.');
    lemma_find_from_unique(name, '.', u + 1, d1);
    assert forall|i: int| d1 + 1 <= i < d2 implies name[i] != '.' by {
        assert(name[i] == word[i - (d1 + 1)]);
    }
    assert(name[d2] == '.');
    lemma_find_from_unique(name, '.', d1 + 1, d2);
    assert(name.subrange(0, u) =~= digits);
    assert(name.subrange(u + 1, d1) =~= p.id.slug);
    assert(name.subrange(d1 + 1, d2) =~= word);
    assert(name.subrange(d2 + 1, name.len() as int) =~= p.extension);
    assert(direction_of(word) == Some(p.id.direction)) by {
        assert(direction_text(Direction::Up).len() != direction_text(Direction::Down).len());
    }
}

/// Names round-trip up to canonical form: the canonical form of an accepted
/// name is accepted too, stands for the same migration, and is a fixed point
/// of parsing followed by formatting.
pub proof fn lemma_canonical_name_round_trip(name: Seq<char>, kind: BackendKind)
    requires
        parse_spec(name, kind) is Ok,
    ensures
        parse_spec(canonical_name(name), kind) == parse_spec(name, kind),
        format_spec(parse_spec(canonical_name(name), kind).unwrap()) == canonical_name(name),
{
    lemma_format_parse(name, kind);
    lemma_parse_format(parse_spec(name, kind).unwrap(), kind);
}

fn is_alphanumeric_char(c: char) -> (r: bool)
    ensures
        r == is_alphanumeric(c),
{
    ('a' <= c && c <= 'z') || ('A' <= c && c <= 'Z') || ('0' <= c && c <= '9')
}

fn check_slug(v: &Vec<char>, from: usize, to: usize) -> (r: bool)
    requires
        from <= to <= v.len(),
    ensures
        r == valid_slug(v@.subrange(from as int, to as int)),
{
    let ghost s = v@.subrange(from as int, to as int);
    if from == to {
        return false;
    }
    let mut i: usize = from;
    while i < to
        invariant
            from <= i <= to <= v.len(),
            s == v@.subrange(from as int, to as int),
            forall|k: int| 0 <= k < i - from ==> is_slug_char(#[trigger] s[k]),
        decreases to - i,
    {
        let c = v[i];
        if !(is_alphanumeric_char(c) || c == '_' || c == '-') {
            assert(!is_slug_char(s[i - from]));
            return false;
        }
        i = i + 1;
    }
    true
}

fn check_extension(v: &Vec<char>, from: usize, to: usize) -> (r: bool)
    requires
        from <= to <= v.len(),
    ensures
        r == valid_extension(v@.subrange(from as int, to as int)),
{
    let ghost s = v@.subrange(from as int, to as int);
    if from == to {
        return false;
    }
    let mut i: usize = from;
    while i < to
        invariant
            from <= i <= to <= v.len(),
            s == v@.subrange(from as int, to as int),
            forall|k: int| 0 <= k < i - from ==> is_alphanumeric(#[trigger] s[k]),
        decreases to - i,
    {
        if !is_alphanumeric_char(v[i]) {
            assert(!is_alphanumeric(s[i - from]));
            return false;
        }
        i = i + 1;
    }
    true
}

fn read_direction(v: &Vec<char>, from: usize, to: usize) -> (r: Option<Direction>)
    requires
        from <= to <= v.len(),
    ensures
        r == direction_of(v@.subrange(from as int, to as int)),
{
    let ghost s = v@.subrange(from as int, to as int);
    assert(direction_text(Direction::Up).len() == 2 && direction_text(Direction::Down).len() == 4);
    assert(direction_text(Direction::Up)[0] == 'u' && direction_text(Direction::Up)[1] == 'p');
    assert(direction_text(Direction::Down)[0] == 'd' && direction_text(Direction::Down)[1] == 'o'
        && direction_text(Direction::Down)[2] == 'w' && direction_text(Direction::Down)[3] == 'n');
    if to - from == 2 {
        if v[from] == 'u' && v[from + 1] == 'p' {
            assert(s =~= direction_text(Direction::Up));
            Some(Direction::Up)
        } else {
            assert(s[0] == v@[from as int] && s[1] == v@[from + 1]);
            None
        }
    } else if to - from == 4 {
        if v[from] == 'd' && v[from + 1] == 'o' && v[from + 2] == 'w' && v[from + 3] == 'n' {
            assert(s =~= direction_text(Direction::Down));
            Some(Direction::Down)
        } else {
            assert(s[0] == v@[from as int] && s[1] == v@[from + 1] && s[2] == v@[from + 2] && s[3]
                == v@[from + 3]);
            None
        }
    } else {
        None
    }
}

/// Searches the tokens of a slug for a word the backend kind reserves.
pub fn slug_has_reserved_token(slug: &Vec<char>, kind: BackendKind) -> (r: bool)
    ensures
        r == has_reserved_token(slug@, kind),
{
    let mut start: usize = 0;
    loop
        invariant
            start <= slug.len(),
            start == 0 || slug@[start - 1] == '_',
            forall|f: int, t: int|
                #[trigger] is_token(slug@, f, t) && f < start ==> !is_reserved_word(
                    slug@.subrange(f, t),
                    kind,
                ),
        decreases slug.len() - start,
    {
        let end = find_char(slug, '_', start);
        proof {
            lemma_find_from(slug@, '_', start as int);
        }
        if end > start {
            let token = slice_of(slug, start, end);
            assert(is_token(slug@, start as int, end as int));
            if is_reserved_chars(&token, kind) {
                return true;
            }
        }
        assert forall|f: int, t: int| #[trigger]
            is_token(slug@, f, t) && f <= end implies !is_reserved_word(
            slug@.subrange(f, t),
            kind,
        ) by {
            if f >= start {
                if f > start {
                    assert(slug@[f - 1] != '_');
                }
                lemma_find_from_unique(slug@, '_', start as int, t);
            }
        }
        if end >= slug.len() {
            return false;
        }
        start = end + 1;
    }
}

/// Searches the tokens of a slug, each taken with the underscore that leads
/// it, for a word the backend kind reserves.
pub fn slug_has_reserved_led_token(slug: &Vec<char>, kind: BackendKind) -> (r: bool)
    ensures
        r == has_reserved_led_token(slug@, kind),
{
    let mut start: usize = 0;
    loop
        invariant
            start <= slug.len(),
            start == 0 || slug@[start - 1] == '_',
            forall|f: int, t: int|
                #[trigger] is_led_token(slug@, f, t) && f + 1 < start ==> !is_reserved_word(
                    slug@.subrange(f, t),
                    kind,
                ),
        decreases slug.len() - start,
    {
        let end = find_char(slug, '_', start);
        proof {
            lemma_find_from(slug@, '_', start as int);
        }
        if end > start && start >= 1 && (start == 1 || slug[start - 2] == '_') {
            let word = slice_of(slug, start - 1, end);
            assert(is_token(slug@, start as int, end as int));
            assert(is_led_token(slug@, start - 1, end as int));
            if is_reserved_chars(&word, kind) {
                return true;
            }
        }
        assert forall|f: int, t: int| #[trigger]
            is_led_token(slug@, f, t) && f + 1 <= end implies !is_reserved_word(
            slug@.subrange(f, t),
            kind,
        ) by {
            if f + 1 >= start {
                if f + 1 > start {
                    assert(slug@[f] != '_');
                }
                lemma_find_from_unique(slug@, '_', start as int, t);
            }
        }
        if end >= slug.len() {
            return false;
        }
        start = end + 1;
    }
}

/// Tells whether a slug collides with a word the backend kind reserves.
pub fn slug_collides_with_reserved(slug: &Vec<char>, kind: BackendKind) -> (r: bool)
    ensures
        r == slug_collides(slug@, kind),
{
    is_reserved_chars(slug, kind) || slug_has_reserved_token(slug, kind)
        || slug_has_reserved_led_token(slug, kind)
}

/// Takes a file name apart. The name must have the shape
/// `<version>_<slug>.<up|down>.<extension>`, with a version of decimal digits
/// that fits in 64 bits; the slug may not collide with a word that `kind`
/// reserves.
pub fn parse(name: &str, kind: BackendKind) -> (r: Result<Parsed, FilenameError>)
    ensures
        match r {
            Ok(p) => parse_spec(name@, kind) == Ok::<ParsedView, FilenameError>(p@),
            Err(e) => parse_spec(name@, kind) == Err::<ParsedView, FilenameError>(e),
        },
{
    let chars = chars_of(name);
    let n = chars.len();
    let u = find_char(&chars, '_', 0);
    if u >= n {
        return Err(FilenameError::InvalidFilename);
    }
    let d1 = find_char(&chars, '.', u + 1);
    if d1 >= n {
        return Err(FilenameError::InvalidFilename);
    }
    let d2 = find_char(&chars, '.', d1 + 1);
    if d2 >= n {
        return Err(FilenameError::InvalidFilename);
    }
    let version = match parse_decimal(&chars, 0, u) {
        Some(v) => v,
        None => { return Err(FilenameError::InvalidFilename); },
    };
    if !check_slug(&chars, u + 1, d1) {
        return Err(FilenameError::InvalidFilename);
    }
    let direction = match read_direction(&chars, d1 + 1, d2) {
        Some(d) => d,
        None => { return Err(FilenameError::InvalidFilename); },
    };
    if !check_extension(&chars, d2 + 1, n) {
        return Err(FilenameError::InvalidFilename);
    }
    let slug = slice_of(&chars, u + 1, d1);
    if slug_collides_with_reserved(&slug, kind) {
        return Err(FilenameError::ReservedWordInFilename);
    }
    let extension = slice_of(&chars, d2 + 1, n);
    Ok(
        Parsed {
            id: MigrationId { version, slug: string_of(&slug), direction },
            extension: string_of(&extension),
        },
    )
}

/// Writes the canonical file name of a parsed name.
pub fn format(p: &Parsed) -> (s: String)
    ensures
        s@ == format_spec(p@),
{
    let mut out: Vec<char> = Vec::new();
    push_decimal(&mut out, p.id.version);
    out.push('_');
    let slug = chars_of(p.id.slug.as_str());
    push_all(&mut out, &slug);
    out.push('.');
    match p.id.direction {
        Direction::Up => {
            out.push('u');
            out.push('p');
        },
        Direction::Down => {
            out.push('d');
            out.push('o');
            out.push('w');
            out.push('n');
        },
    }
    out.push('.');
    let extension = chars_of(p.extension.as_str());
    push_all(&mut out, &extension);
    assert(out@ =~= format_spec(p@));
    string_of(&out)
}

} // verus!
