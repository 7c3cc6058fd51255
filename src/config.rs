//! A small `key = value` configuration text format: `#` comments, values
//! ended by blanks or line ends, `\` before a line end continuing a value,
//! and `\t`, `\r`, `\n`, `\\` escapes.
use vstd::prelude::*;
use vstd::slice::{slice_subrange, slice_to_vec};
use vstd::string::StringSliceAdditionalSpecFns;
use vstd::utf8::{decode_utf8, encode_utf8, valid_utf8};

verus! {

/// Byte ranges of one key and its value within the text.
#[derive(Debug, Clone, Copy, PartialEq, Eq, Structural)]
pub struct ConfigItem {
    pub key_begin: usize,
    pub key_end: usize,
    pub val_begin: usize,
    pub val_end: usize,
}

impl ConfigItem {
    /// An item with every range empty at the start of the text.
    pub fn new() -> (r: ConfigItem)
        ensures
            r == empty_item(),
    {
        ConfigItem { key_begin: 0, key_end: 0, val_begin: 0, val_end: 0 }
    }
}

/// An item with every range empty at the start of the text.
pub open spec fn empty_item() -> ConfigItem {
    ConfigItem { key_begin: 0, key_end: 0, val_begin: 0, val_end: 0 }
}

/// Why a configuration text or value was refused.
#[derive(Debug, Clone, Copy, PartialEq, Eq, Structural)]
pub enum ConfigError {
    /// A line starts with `=` (the line number).
    StartsWithEqual(usize),
    /// A key is followed by a line end or comment (the line number).
    NoValueInLine(usize),
    /// Something other than `=` follows a key and blanks (line, byte offset).
    NoEqual(usize, usize),
    /// The text ends right after a key (the line number).
    NoValueAtEnd(usize),
    /// A `\` is followed by a character with no escape meaning.
    BadEscape(u8),
    /// A value is not UTF-8 text.
    NotUtf8,
    /// A value does not read as the asked-for type.
    BadValue,
}

/// Where the reader is within the text.
#[derive(Debug, Clone, Copy, PartialEq, Eq, Structural)]
pub enum ParseStatus {
    KeyBegin,
    Comment,
    Key,
    Equal,
    ValBegin,
    Val,
    ValContinue,
    ValComment,
}

/// The reader's state after some prefix of the text.
pub struct ParseState {
    pub status: ParseStatus,
    pub curr: ConfigItem,
    pub items: Seq<ConfigItem>,
    pub line: usize,
}

/// A blank: space or tab.
pub open spec fn is_blank(c: u8) -> bool {
    c == 32u8 || c == 9u8
}

/// A line end: carriage return or line feed.
pub open spec fn is_eol(c: u8) -> bool {
    c == 13u8 || c == 10u8
}

/// `n + 1`, staying at the largest value.
pub open spec fn sat_inc(n: usize) -> usize {
    if n < usize::MAX { (n + 1) as usize } else { n }
}

/// One step of the reader over the byte at `i`.
pub open spec fn parse_step(data: Seq<u8>, i: int, st: ParseState) -> Result<ParseState, ConfigError> {
    let c = data[i];
    let line = if c == 10u8 { sat_inc(st.line) } else { st.line };
    let cur = st.curr;
    let same = ParseState { line, ..st };
    match st.status {
        ParseStatus::KeyBegin => {
            if c == 35u8 {
                Ok(ParseState { status: ParseStatus::Comment, ..same })
            } else if c == 61u8 {
                Err(ConfigError::StartsWithEqual(line))
            } else if is_blank(c) || is_eol(c) {
                Ok(same)
            } else {
                Ok(
                    ParseState {
                        status: ParseStatus::Key,
                        curr: ConfigItem { key_begin: i as usize, ..cur },
                        ..same
                    },
                )
            }
        },
        ParseStatus::Comment => {
            if is_eol(c) {
                Ok(ParseState { status: ParseStatus::KeyBegin, ..same })
            } else {
                Ok(same)
            }
        },
        ParseStatus::Key => {
            if is_blank(c) {
                Ok(
                    ParseState {
                        status: ParseStatus::Equal,
                        curr: ConfigItem { key_end: i as usize, ..cur },
                        ..same
                    },
                )
            } else if c == 61u8 {
                Ok(
                    ParseState {
                        status: ParseStatus::ValBegin,
                        curr: ConfigItem { key_end: i as usize, ..cur },
                        ..same
                    },
                )
            } else if is_eol(c) || c == 35u8 {
                Err(ConfigError::NoValueInLine(line))
            } else {
                Ok(same)
            }
        },
        ParseStatus::Equal => {
            if c == 61u8 {
                Ok(ParseState { status: ParseStatus::ValBegin, ..same })
            } else if is_blank(c) {
                Ok(same)
            } else {
                Err(ConfigError::NoEqual(line, i as usize))
            }
        },
        ParseStatus::ValBegin => {
            if is_eol(c) || c == 35u8 {
                Ok(
                    ParseState {
                        status: if c != 35u8 {
                            ParseStatus::KeyBegin
                        } else {
                            ParseStatus::ValComment
                        },
                        curr: empty_item(),
                        items: st.items.push(ConfigItem { val_end: 0, ..cur }),
                        line,
                    },
                )
            } else if is_blank(c) {
                Ok(same)
            } else {
                Ok(
                    ParseState {
                        status: ParseStatus::Val,
                        curr: ConfigItem { val_begin: i as usize, ..cur },
                        ..same
                    },
                )
            }
        },
        ParseStatus::Val => {
            if is_eol(c) || is_blank(c) {
                if data[i - 1] == 92u8 {
                    Ok(ParseState { status: ParseStatus::ValContinue, ..same })
                } else {
                    Ok(
                        ParseState {
                            status: ParseStatus::KeyBegin,
                            curr: empty_item(),
                            items: st.items.push(ConfigItem { val_end: i as usize, ..cur }),
                            line,
                        },
                    )
                }
            } else if c == 35u8 {
                Ok(
                    ParseState {
                        status: ParseStatus::ValComment,
                        curr: empty_item(),
                        items: st.items.push(ConfigItem { val_end: i as usize, ..cur }),
                        line,
                    },
                )
            } else {
                Ok(same)
            }
        },
        ParseStatus::ValContinue => {
            if is_eol(c) || is_blank(c) {
                Ok(same)
            } else {
                Ok(ParseState { status: ParseStatus::Val, ..same })
            }
        },
        ParseStatus::ValComment => {
            if is_eol(c) {
                Ok(ParseState { status: ParseStatus::KeyBegin, ..same })
            } else {
                Ok(same)
            }
        },
    }
}

/// The reader's state after the first `n` bytes of the text.
pub open spec fn parse_run(data: Seq<u8>, n: nat) -> Result<ParseState, ConfigError>
    decreases n,
{
    if n == 0 {
        Ok(ParseState { status: ParseStatus::KeyBegin, curr: empty_item(), items: Seq::empty(), line: 1 })
    } else {
        match parse_run(data, (n - 1) as nat) {
            Err(e) => Err(e),
            Ok(st) => parse_step(data, n - 1, st),
        }
    }
}

/// What the end of the text makes of the reader's final state.
pub open spec fn parse_finish(data: Seq<u8>, st: ParseState) -> Result<Seq<ConfigItem>, ConfigError> {
    match st.status {
        ParseStatus::ValBegin => Ok(st.items.push(st.curr)),
        ParseStatus::Val | ParseStatus::ValContinue => Ok(
            st.items.push(ConfigItem { val_end: data.len() as usize, ..st.curr }),
        ),
        ParseStatus::Key | ParseStatus::Equal => Err(ConfigError::NoValueAtEnd(st.line)),
        _ => Ok(st.items),
    }
}

/// The items that the text holds, or why it is refused.
pub open spec fn parse_spec(data: Seq<u8>) -> Result<Seq<ConfigItem>, ConfigError> {
    match parse_run(data, data.len()) {
        Err(e) => Err(e),
        Ok(st) => parse_finish(data, st),
    }
}

/// Whether both ranges of an item lie within a text of length `len`.
pub open spec fn item_ok(it: ConfigItem, len: nat) -> bool {
    it.key_begin <= it.key_end <= len && it.val_begin <= it.val_end <= len
}

/// What the reader has gathered of the item it is in, given its status, at byte `i`.
pub open spec fn curr_ok(status: ParseStatus, c: ConfigItem, i: nat) -> bool {
    match status {
        ParseStatus::Key => c.key_begin < i && c.val_begin == 0 && c.val_end == 0,
        ParseStatus::Equal | ParseStatus::ValBegin => c.key_begin <= c.key_end < i && c.val_begin
            == 0 && c.val_end == 0,
        ParseStatus::Val | ParseStatus::ValContinue => c.key_begin <= c.key_end <= c.val_begin < i
            && c.val_end == 0,
        _ => c.val_begin == 0 && c.val_end == 0,
    }
}

proof fn lemma_run_error_stays(data: Seq<u8>, n: nat, m: nat)
    requires
        n <= m,
        parse_run(data, n) is Err,
    ensures
        parse_run(data, m) == parse_run(data, n),
    decreases m - n,
{
    if n < m {
        lemma_run_error_stays(data, n, (m - 1) as nat);
    }
}

/// Reads the items of a configuration text.
fn parse(data: &Vec<u8>) -> (r: Result<Vec<ConfigItem>, ConfigError>)
    ensures
        match r {
            Ok(v) => parse_spec(data@) == Ok::<Seq<ConfigItem>, ConfigError>(v@) && forall|k: int|
                0 <= k < v@.len() ==> item_ok(#[trigger] v@[k], data@.len()),
            Err(e) => parse_spec(data@) == Err::<Seq<ConfigItem>, ConfigError>(e),
        },
{
    let mut result: Vec<ConfigItem> = Vec::new();
    let mut pstate = ParseStatus::KeyBegin;
    let mut curr = ConfigItem::new();
    let mut line_no: usize = 1;
    let imax = data.len();
    let mut i: usize = 0;
    while i < imax
        invariant
            imax == data@.len(),
            i <= imax,
            parse_run(data@, i as nat) == Ok::<ParseState, ConfigError>(
                ParseState { status: pstate, curr, items: result@, line: line_no },
            ),
            i == 0 ==> pstate == ParseStatus::KeyBegin,
            curr_ok(pstate, curr, i as nat),
            forall|k: int| 0 <= k < result@.len() ==> item_ok(#[trigger] result@[k], data@.len()),
        decreases imax - i,
    {
        let c = data[i];
        if c == 10u8 {
            line_no = line_no.saturating_add(1);
        }
        let ghost before = result@;
        match pstate {
            ParseStatus::KeyBegin => {
                if c == 35u8 {
                    pstate = ParseStatus::Comment;
                } else if c == 61u8 {
                    proof {
                        lemma_run_error_stays(data@, (i + 1) as nat, data@.len());
                    }
                    return Err(ConfigError::StartsWithEqual(line_no));
                } else if c == 32u8 || c == 9u8 || c == 13u8 || c == 10u8 {
                } else {
                    pstate = ParseStatus::Key;
                    curr.key_begin = i;
                }
            },
            ParseStatus::Comment => {
                if c == 13u8 || c == 10u8 {
                    pstate = ParseStatus::KeyBegin;
                }
            },
            ParseStatus::Key => {
                if c == 32u8 || c == 9u8 {
                    pstate = ParseStatus::Equal;
                    curr.key_end = i;
                } else if c == 61u8 {
                    pstate = ParseStatus::ValBegin;
                    curr.key_end = i;
                } else if c == 13u8 || c == 10u8 || c == 35u8 {
                    proof {
                        lemma_run_error_stays(data@, (i + 1) as nat, data@.len());
                    }
                    return Err(ConfigError::NoValueInLine(line_no));
                }
            },
            ParseStatus::Equal => {
                if c == 61u8 {
                    pstate = ParseStatus::ValBegin;
                } else if c == 32u8 || c == 9u8 {
                } else {
                    proof {
                        lemma_run_error_stays(data@, (i + 1) as nat, data@.len());
                    }
                    return Err(ConfigError::NoEqual(line_no, i));
                }
            },
            ParseStatus::ValBegin => {
                if c == 13u8 || c == 10u8 || c == 35u8 {
                    pstate = if c != 35u8 {
                        ParseStatus::KeyBegin
                    } else {
                        ParseStatus::ValComment
                    };
                    curr.val_end = 0;
                    result.push(curr);
                    curr = ConfigItem::new();
                } else if c == 32u8 || c == 9u8 {
                } else {
                    pstate = ParseStatus::Val;
                    curr.val_begin = i;
                }
            },
            ParseStatus::Val => {
                if c == 13u8 || c == 10u8 || c == 32u8 || c == 9u8 {
                    if data[i - 1] == 92u8 {
                        pstate = ParseStatus::ValContinue;
                    } else {
                        pstate = ParseStatus::KeyBegin;
                        curr.val_end = i;
                        result.push(curr);
                        curr = ConfigItem::new();
                    }
                } else if c == 35u8 {
                    pstate = ParseStatus::ValComment;
                    curr.val_end = i;
                    result.push(curr);
                    curr = ConfigItem::new();
                }
            },
            ParseStatus::ValContinue => {
                if c == 13u8 || c == 10u8 || c == 32u8 || c == 9u8 {
                } else {
                    pstate = ParseStatus::Val;
                }
            },
            ParseStatus::ValComment => {
                if c == 13u8 || c == 10u8 {
                    pstate = ParseStatus::KeyBegin;
                }
            },
        }
        proof {
            assert forall|k: int| 0 <= k < result@.len() implies item_ok(#[trigger] result@[k], data@.len()) by {
                if k < before.len() {
                    assert(result@[k] == before[k]);
                }
            }
        }
        i = i + 1;
    }
    match pstate {
        ParseStatus::ValBegin => {
            result.push(curr);
        },
        ParseStatus::Val | ParseStatus::ValContinue => {
            curr.val_end = imax;
            result.push(curr);
        },
        ParseStatus::Key | ParseStatus::Equal => {
            return Err(ConfigError::NoValueAtEnd(line_no));
        },
        _ => {},
    }
    Ok(result)
}

/// The key bytes of an item.
pub open spec fn item_key(data: Seq<u8>, it: ConfigItem) -> Seq<u8> {
    data.subrange(it.key_begin as int, it.key_end as int)
}

/// The raw value bytes of an item.
pub open spec fn item_value(data: Seq<u8>, it: ConfigItem) -> Seq<u8> {
    data.subrange(it.val_begin as int, it.val_end as int)
}

/// The raw value of the first item whose key is `key`.
pub open spec fn lookup(data: Seq<u8>, kv: Seq<ConfigItem>, key: Seq<u8>) -> Option<Seq<u8>>
    decreases kv.len(),
{
    if kv.len() == 0 {
        None
    } else if item_key(data, kv[0]) == key {
        Some(item_value(data, kv[0]))
    } else {
        lookup(data, kv.drop_first(), key)
    }
}

/// The byte that an escape `\c` stands for.
pub open spec fn escaped(c: u8) -> Result<u8, ConfigError> {
    if c == 116u8 {
        Ok(9u8)
    } else if c == 114u8 {
        Ok(13u8)
    } else if c == 110u8 {
        Ok(10u8)
    } else if c == 92u8 {
        Ok(92u8)
    } else {
        Err(ConfigError::BadEscape(c))
    }
}

/// Where the unescaping of a value is.
#[derive(Debug, Clone, Copy, PartialEq, Eq, Structural)]
pub enum UnescapeMode {
    /// Copying bytes and reading escapes.
    Copy,
    /// After a `\` at a line end: skipping line ends.
    SkipLineEnds,
    /// Then skipping the blanks that indent the next line.
    SkipBlanks,
}

/// A rank that falls at each change of mode without a byte being read.
pub open spec fn mode_rank(m: UnescapeMode) -> nat {
    match m {
        UnescapeMode::Copy => 0,
        UnescapeMode::SkipBlanks => 1,
        UnescapeMode::SkipLineEnds => 2,
    }
}

/// Unescapes `val` from byte `i` in mode `mode`, after `acc`: escapes are
/// replaced, a `\` before a line end joins the next line without its
/// indent, and a bare line end ends the value.
pub open spec fn unescape_from(val: Seq<u8>, i: int, mode: UnescapeMode, acc: Seq<u8>) -> Result<Seq<u8>, ConfigError>
    decreases val.len() - i, mode_rank(mode),
{
    if i < 0 || i >= val.len() {
        Ok(acc)
    } else {
        match mode {
            UnescapeMode::Copy => {
                if val[i] == 92u8 {
                    if i + 1 < val.len() {
                        let c = val[i + 1];
                        if is_eol(c) {
                            unescape_from(val, i + 1, UnescapeMode::SkipLineEnds, acc)
                        } else {
                            match escaped(c) {
                                Ok(b) => unescape_from(val, i + 2, UnescapeMode::Copy, acc.push(b)),
                                Err(e) => Err(e),
                            }
                        }
                    } else {
                        Ok(acc)
                    }
                } else if is_eol(val[i]) {
                    Ok(acc)
                } else {
                    unescape_from(val, i + 1, UnescapeMode::Copy, acc.push(val[i]))
                }
            },
            UnescapeMode::SkipLineEnds => {
                if is_eol(val[i]) {
                    unescape_from(val, i + 1, UnescapeMode::SkipLineEnds, acc)
                } else {
                    unescape_from(val, i, UnescapeMode::SkipBlanks, acc)
                }
            },
            UnescapeMode::SkipBlanks => {
                if is_blank(val[i]) {
                    unescape_from(val, i + 1, UnescapeMode::SkipBlanks, acc)
                } else {
                    unescape_from(val, i, UnescapeMode::Copy, acc)
                }
            },
        }
    }
}

/// The bytes a raw value stands for: unescaped when it holds a `\`, else as it is.
pub open spec fn value_bytes(val: Seq<u8>) -> Result<Seq<u8>, ConfigError> {
    if val.contains(92u8) {
        unescape_from(val, 0, UnescapeMode::Copy, Seq::empty())
    } else {
        Ok(val)
    }
}

/// The text a raw value stands for.
pub open spec fn value_text(val: Seq<u8>) -> Result<Seq<char>, ConfigError> {
    match value_bytes(val) {
        Err(e) => Err(e),
        Ok(b) => if valid_utf8(b) {
            Ok(decode_utf8(b))
        } else {
            Err(ConfigError::NotUtf8)
        },
    }
}

/// Relies on std's `String::from_utf8`: it succeeds exactly on valid UTF-8,
/// and the string then holds the characters those bytes encode.
#[verifier::external_body]
fn utf8_to_string(v: Vec<u8>) -> (r: Option<String>)
    ensures
        r is Some == valid_utf8(v@),
        r is Some ==> r->Some_0@ == decode_utf8(v@),
{
    String::from_utf8(v).ok()
}

/// Relies on std's `str::parse`: what it reads depends on the target type's
/// `FromStr`, so nothing is promised of it.
#[verifier::external_body]
fn parse_text<T: std::str::FromStr>(s: &str) -> (r: Option<T>) {
    s.parse::<T>().ok()
}

/// Parsed configuration text: the text and the items found in it.
pub struct Config {
    data: Vec<u8>,
    kv: Vec<ConfigItem>,
}

impl Config {
    /// The configuration text as bytes.
    pub closed spec fn data(&self) -> Seq<u8> {
        self.data@
    }

    /// The items of the text, in order.
    pub closed spec fn items(&self) -> Seq<ConfigItem> {
        self.kv@
    }

    /// The items are exactly those that the text holds.
    #[verifier::type_invariant]
    closed spec fn inv(&self) -> bool {
        &&& parse_spec(self.data@) == Ok::<Seq<ConfigItem>, ConfigError>(self.kv@)
        &&& forall|k: int| 0 <= k < self.kv@.len() ==> item_ok(#[trigger] self.kv@[k], self.data@.len())
    }

    /// Reads configuration text given as bytes.
    pub fn with_data(data: Vec<u8>) -> (r: Result<Config, ConfigError>)
        ensures
            match r {
                Ok(c) => c.data() == data@ && parse_spec(data@) == Ok::<Seq<ConfigItem>, ConfigError>(c.items()),
                Err(e) => parse_spec(data@) == Err::<Seq<ConfigItem>, ConfigError>(e),
            },
    {
        match parse(&data) {
            Ok(kv) => Ok(Config { data, kv }),
            Err(e) => Err(e),
        }
    }

    /// Reads configuration text.
    pub fn with_text(text: String) -> (r: Result<Config, ConfigError>)
        ensures
            match r {
                Ok(c) => c.data() == encode_utf8(text@) && parse_spec(c.data()) == Ok::<
                    Seq<ConfigItem>,
                    ConfigError,
                >(c.items()),
                Err(e) => parse_spec(encode_utf8(text@)) == Err::<Seq<ConfigItem>, ConfigError>(e),
            },
    {
        let data = slice_to_vec(text.as_str().as_bytes());
        Self::with_data(data)
    }

    /// The raw value of the first item whose key is `key`, escapes and all.
    pub fn get_raw(&self, key: &str) -> (r: Option<&[u8]>)
        ensures
            match r {
                Some(v) => lookup(self.data(), self.items(), key.spec_bytes()) == Some(v@),
                None => lookup(self.data(), self.items(), key.spec_bytes()) is None,
            },
    {
        proof {
            use_type_invariant(self);
        }
        let k = key.as_bytes();
        let data = self.data.as_slice();
        let mut i: usize = 0;
        assert(self.kv@.subrange(0, self.kv@.len() as int) =~= self.kv@);
        while i < self.kv.len()
            invariant
                i <= self.kv@.len(),
                data@ == self.data@,
                k@ == key.spec_bytes(),
                forall|m: int| 0 <= m < self.kv@.len() ==> item_ok(#[trigger] self.kv@[m], self.data@.len()),
                lookup(self.data@, self.kv@, k@) == lookup(
                    self.data@,
                    self.kv@.subrange(i as int, self.kv@.len() as int),
                    k@,
                ),
            decreases self.kv@.len() - i,
        {
            let it = self.kv[i];
            let ghost rest = self.kv@.subrange(i as int, self.kv@.len() as int);
            assert(rest[0] == it);
            assert(rest.drop_first() =~= self.kv@.subrange(i + 1, self.kv@.len() as int));
            assert(item_ok(self.kv@[i as int], self.data@.len()));
            let key_here = slice_subrange(data, it.key_begin, it.key_end);
            assert(key_here@ == item_key(self.data@, it));
            if same_bytes(key_here, k) {
                assert(rest.len() > 0);
                assert(lookup(self.data@, rest, k@) == Some(item_value(self.data@, it)));
                let v = slice_subrange(data, it.val_begin, it.val_end);
                assert(v@ == item_value(self.data@, it));
                assert(lookup(self.data(), self.items(), key.spec_bytes()) == Some(v@));
                return Some(v);
            }
            i = i + 1;
        }
        None
    }

    /// The byte that the escape `\v` stands for.
    pub fn escape(v: u8) -> (r: Result<u8, ConfigError>)
        ensures
            r == escaped(v),
    {
        if v == 116u8 {
            Ok(9u8)
        } else if v == 114u8 {
            Ok(13u8)
        } else if v == 110u8 {
            Ok(10u8)
        } else if v == 92u8 {
            Ok(92u8)
        } else {
            Err(ConfigError::BadEscape(v))
        }
    }

    /// The text that a raw value stands for.
    pub fn decode(val: &[u8]) -> (r: Result<String, ConfigError>)
        ensures
            match r {
                Ok(s) => value_text(val@) == Ok::<Seq<char>, ConfigError>(s@),
                Err(e) => value_text(val@) == Err::<Seq<char>, ConfigError>(e),
            },
    {
        let bytes = match Self::unescape(val) {
            Ok(b) => b,
            Err(e) => {
                return Err(e);
            },
        };
        match utf8_to_string(bytes) {
            Some(s) => Ok(s),
            None => Err(ConfigError::NotUtf8),
        }
    }

    fn unescape(val: &[u8]) -> (r: Result<Vec<u8>, ConfigError>)
        ensures
            match r {
                Ok(b) => value_bytes(val@) == Ok::<Seq<u8>, ConfigError>(b@),
                Err(e) => value_bytes(val@) == Err::<Seq<u8>, ConfigError>(e),
            },
    {
        let n = val.len();
        let mut has_escape = false;
        let mut j: usize = 0;
        while j < n
            invariant
                n == val@.len(),
                j <= n,
                has_escape == (exists|m: int| 0 <= m < j && val@[m] == 92u8),
            decreases n - j,
        {
            if val[j] == 92u8 {
                has_escape = true;
            }
            j = j + 1;
        }
        if !has_escape {
            assert(!val@.contains(92u8));
            return Ok(slice_to_vec(val));
        }
        assert(val@.contains(92u8));
        let mut out: Vec<u8> = Vec::new();
        let mut mode = UnescapeMode::Copy;
        let mut i: usize = 0;
        while i < n
            invariant
                n == val@.len(),
                i <= n,
                val@.contains(92u8),
                unescape_from(val@, 0, UnescapeMode::Copy, Seq::empty()) == unescape_from(
                    val@,
                    i as int,
                    mode,
                    out@,
                ),
            decreases n - i, mode_rank(mode),
        {
            match mode {
                UnescapeMode::Copy => {
                    if val[i] == 92u8 {
                        if i + 1 < n {
                            let c = val[i + 1];
                            if c == 13u8 || c == 10u8 {
                                mode = UnescapeMode::SkipLineEnds;
                                i = i + 1;
                            } else {
                                match Self::escape(c) {
                                    Ok(b) => {
                                        out.push(b);
                                        i = i + 2;
                                    },
                                    Err(e) => {
                                        return Err(e);
                                    },
                                }
                            }
                        } else {
                            return Ok(out);
                        }
                    } else if val[i] == 13u8 || val[i] == 10u8 {
                        assert(is_eol(val@[i as int]));
                        assert(unescape_from(val@, i as int, UnescapeMode::Copy, out@) == Ok::<
                            Seq<u8>,
                            ConfigError,
                        >(out@));
                        return Ok(out);
                    } else {
                        out.push(val[i]);
                        i = i + 1;
                    }
                },
                UnescapeMode::SkipLineEnds => {
                    if val[i] == 13u8 || val[i] == 10u8 {
                        i = i + 1;
                    } else {
                        mode = UnescapeMode::SkipBlanks;
                    }
                },
                UnescapeMode::SkipBlanks => {
                    if val[i] == 32u8 || val[i] == 9u8 {
                        i = i + 1;
                    } else {
                        mode = UnescapeMode::Copy;
                    }
                },
            }
        }
        Ok(out)
    }

    /// The text value of the first item whose key is `key`, if there is one.
    pub fn get_str(&self, key: &str) -> (r: Result<Option<String>, ConfigError>)
        ensures
            match lookup(self.data(), self.items(), key.spec_bytes()) {
                None => r == Ok::<Option<String>, ConfigError>(None),
                Some(v) => match value_text(v) {
                    Ok(t) => r is Ok && r->Ok_0 is Some && r->Ok_0->Some_0@ == t,
                    Err(e) => r == Err::<Option<String>, ConfigError>(e),
                },
            },
    {
        match self.get_raw(key) {
            Some(s) => match Self::decode(s) {
                Ok(t) => Ok(Some(t)),
                Err(e) => Err(e),
            },
            None => Ok(None),
        }
    }

    /// The value of the first item whose key is `key`, read as a `T`.
    pub fn get<T: std::str::FromStr>(&self, key: &str) -> (r: Result<Option<T>, ConfigError>)
        ensures
            match lookup(self.data(), self.items(), key.spec_bytes()) {
                None => r is Ok && r->Ok_0 is None,
                Some(v) => match value_text(v) {
                    Ok(t) => (r is Ok && r->Ok_0 is Some) || (r is Err && r->Err_0
                        == ConfigError::BadValue),
                    Err(e) => r is Err && r->Err_0 == e,
                },
            },
    {
        match self.get_raw(key) {
            Some(s) => match Self::decode(s) {
                Ok(t) => match parse_text::<T>(t.as_str()) {
                    Some(v) => Ok(Some(v)),
                    None => Err(ConfigError::BadValue),
                },
                Err(e) => Err(e),
            },
            None => Ok(None),
        }
    }
}

/// Whether two byte sequences are equal.
fn same_bytes(a: &[u8], b: &[u8]) -> (r: bool)
    ensures
        r == (a@ == b@),
{
    if a.len() != b.len() {
        return false;
    }
    let mut i: usize = 0;
    while i < a.len()
        invariant
            a@.len() == b@.len(),
            i <= a@.len(),
            forall|k: int| 0 <= k < i ==> a@[k] == b@[k],
        decreases a@.len() - i,
    {
        if a[i] != b[i] {
            return false;
        }
        i = i + 1;
    }
    assert(a@ =~= b@);
    true
}

} // verus!
