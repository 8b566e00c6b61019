//! Assembly of a canonical multi-party spending descriptor.
//!
//! A cosigner setup is parsed from a line-oriented text record into a
//! [`DescriptorComponents`] value, rendered into a sorted-multisig
//! descriptor string for the receive or change branch, and, at signing
//! time, one cosigner's public key material is substituted with the
//! bare extended private key taken from a stored key record.

use vstd::prelude::*;

use crate::text::dec_seq;
use crate::text::digit_char;
use crate::text::find_char;
use crate::text::find_char_at;
use crate::text::has_prefix;
use crate::text::lemma_find_char;
use crate::text::lemma_find_char_is_first;
use crate::text::lemma_rfind_char;
use crate::text::lemma_rfind_char_is_last;
use crate::text::push_dec;
use crate::text::rfind_char;
use crate::text::spec_lines;
use crate::text::split_lines;
use crate::text::str_has_prefix;

verus! {

// ---------------------------------------------------------------------
// Character classes and field validity
// ---------------------------------------------------------------------
/// A decimal digit.
pub open spec fn is_digit(c: char) -> bool {
    48 <= c as u32 && c as u32 <= 57
}

/// The numeric value of a decimal digit.
pub open spec fn digit_value(c: char) -> int {
    c as u32 - 48
}

/// An upper-case hexadecimal digit, as cosigner fingerprints use.
pub open spec fn is_upper_hex(c: char) -> bool {
    is_digit(c) || (65 <= c as u32 && c as u32 <= 70)
}

/// An ASCII letter or digit.
pub open spec fn is_alnum(c: char) -> bool {
    is_digit(c) || (65 <= c as u32 && c as u32 <= 90) || (97 <= c as u32 && c as u32 <= 122)
}

/// A character allowed after the leading "m/" of a derivation path:
/// child indices, hardened markers, and path separators.
pub open spec fn is_derivation_char(c: char) -> bool {
    is_digit(c) || c == '\'' || c == 'h' || c == 'H' || c == '/'
}

/// A cosigner fingerprint: exactly eight upper-case hex digits.
pub open spec fn valid_fingerprint(s: Seq<char>) -> bool {
    s.len() == 8 && (forall|i: int| 0 <= i < 8 ==> is_upper_hex(#[trigger] s[i]))
}

/// Syntactic validity of key material: a non-empty base-58-style
/// string of ASCII letters and digits.
pub open spec fn valid_key_material(s: Seq<char>) -> bool {
    s.len() > 0 && (forall|i: int| 0 <= i < s.len() ==> is_alnum(#[trigger] s[i]))
}

/// Syntactic validity of the shared derivation path: a leading "m/"
/// followed by indices, hardened markers, and separators.
pub open spec fn valid_derivation(s: Seq<char>) -> bool {
    &&& s.len() >= 2
    &&& s[0] == 'm'
    &&& s[1] == '/'
    &&& forall|i: int| 2 <= i < s.len() ==> is_derivation_char(#[trigger] s[i])
}

// ---------------------------------------------------------------------
// The parsed setup and its mathematical model
// ---------------------------------------------------------------------
/// Mathematical model of a parsed cosigner setup.
#[verifier::ext_equal]
pub ghost struct SetupView {
    /// Signatures required to spend.
    pub threshold: int,
    /// The shared base derivation path, including its leading "m/".
    pub derivation: Seq<char>,
    /// The declared script format line, kept verbatim when present.
    pub format: Option<Seq<char>>,
    /// One (fingerprint, key material) pair per cosigner, in the order
    /// the setup text lists them.
    pub keys: Seq<(Seq<char>, Seq<char>)>,
}

impl SetupView {
    /// Structural validity: the invariants every assembled setup keeps.
    pub open spec fn wf(self) -> bool {
        &&& 1 <= self.threshold <= self.keys.len()
        &&& valid_derivation(self.derivation)
        &&& forall|i: int|
            0 <= i < self.keys.len() ==> valid_fingerprint(#[trigger] self.keys[i].0)
                && valid_key_material(self.keys[i].1)
        &&& forall|i: int, j: int|
            0 <= i < j < self.keys.len() ==> self.keys[i].0 != self.keys[j].0
    }
}

/// A parsed multi-cosigner wallet setup: the threshold, the shared
/// derivation path, the optional script format tag, and the ordered
/// cosigner key records.
#[derive(Debug)]
pub struct DescriptorComponents {
    pub threshold: u64,
    pub derivation: String,
    pub format: Option<String>,
    pub keys: Vec<(String, String)>,
}

impl View for DescriptorComponents {
    type V = SetupView;

    open spec fn view(&self) -> SetupView {
        SetupView {
            threshold: self.threshold as int,
            derivation: self.derivation@,
            format: match self.format {
                Some(f) => Some(f@),
                None => None,
            },
            keys: self.keys@.map_values(|kv: (String, String)| (kv.0@, kv.1@)),
        }
    }
}

impl DescriptorComponents {
    /// Structural validity of the assembled setup.
    pub open spec fn wf(&self) -> bool {
        self@.wf()
    }
}

// ---------------------------------------------------------------------
// The recognized line shapes of a setup record
// ---------------------------------------------------------------------
/// The marker that opens a threshold line.
pub open spec fn policy_prefix() -> Seq<char> {
    seq!['P', 'o', 'l', 'i', 'c', 'y', ':', ' ']
}

/// The marker that opens a derivation line.
pub open spec fn derivation_prefix() -> Seq<char> {
    seq!['D', 'e', 'r', 'i', 'v', 'a', 't', 'i', 'o', 'n', ':', ' ']
}

/// The marker that opens a format line.
pub open spec fn format_prefix() -> Seq<char> {
    seq!['F', 'o', 'r', 'm', 'a', 't', ':', ' ']
}

/// A threshold line: "Policy: K of N", with single-digit K and N.
/// Only K is retained.
pub open spec fn is_threshold_line(l: Seq<char>) -> bool {
    &&& l.len() >= 14
    &&& has_prefix(l, policy_prefix())
    &&& is_digit(l[8])
    &&& l[9] == ' '
    &&& l[10] == 'o'
    &&& l[11] == 'f'
    &&& l[12] == ' '
    &&& is_digit(l[13])
}

/// The threshold a threshold line declares.
pub open spec fn threshold_of(l: Seq<char>) -> int {
    digit_value(l[8])
}

/// A derivation line: "Derivation: " followed by a non-empty path.
pub open spec fn is_derivation_line(l: Seq<char>) -> bool {
    l.len() > 12 && has_prefix(l, derivation_prefix())
}

/// The path a derivation line carries.
pub open spec fn derivation_of(l: Seq<char>) -> Seq<char> {
    l.skip(12)
}

/// A format line: "Format: " followed by a non-empty tag.
pub open spec fn is_format_line(l: Seq<char>) -> bool {
    l.len() > 8 && has_prefix(l, format_prefix())
}

/// The tag a format line carries.
pub open spec fn format_of(l: Seq<char>) -> Seq<char> {
    l.skip(8)
}

/// A cosigner line: an eight-digit upper-case hex fingerprint, a colon,
/// a space, and a non-empty key string.
pub open spec fn is_key_line(l: Seq<char>) -> bool {
    &&& l.len() >= 11
    &&& forall|i: int| 0 <= i < 8 ==> is_upper_hex(#[trigger] l[i])
    &&& l[8] == ':'
    &&& l[9] == ' '
}

/// The (fingerprint, key material) pair a cosigner line carries.
pub open spec fn key_of(l: Seq<char>) -> (Seq<char>, Seq<char>) {
    (l.take(8), l.skip(10))
}

// ---------------------------------------------------------------------
// Folding the recognized lines into a setup
// ---------------------------------------------------------------------
/// How many threshold lines the record holds.
pub open spec fn threshold_count(lines: Seq<Seq<char>>) -> int
    decreases lines.len(),
{
    if lines.len() == 0 {
        0
    } else {
        threshold_count(lines.drop_last()) + if is_threshold_line(lines.last()) {
            1int
        } else {
            0int
        }
    }
}

/// The threshold declared by the last threshold line, 0 when none is.
pub open spec fn last_threshold(lines: Seq<Seq<char>>) -> int
    decreases lines.len(),
{
    if lines.len() == 0 {
        0
    } else if is_threshold_line(lines.last()) {
        threshold_of(lines.last())
    } else {
        last_threshold(lines.drop_last())
    }
}

/// The path carried by the last derivation line, when one is present.
pub open spec fn last_derivation(lines: Seq<Seq<char>>) -> Option<Seq<char>>
    decreases lines.len(),
{
    if lines.len() == 0 {
        None
    } else if is_derivation_line(lines.last()) {
        Some(derivation_of(lines.last()))
    } else {
        last_derivation(lines.drop_last())
    }
}

/// The tag carried by the last format line, when one is present.
pub open spec fn last_format(lines: Seq<Seq<char>>) -> Option<Seq<char>>
    decreases lines.len(),
{
    if lines.len() == 0 {
        None
    } else if is_format_line(lines.last()) {
        Some(format_of(lines.last()))
    } else {
        last_format(lines.drop_last())
    }
}

/// The cosigner entries of every cosigner line, in order of appearance.
pub open spec fn keys_of_lines(lines: Seq<Seq<char>>) -> Seq<(Seq<char>, Seq<char>)>
    decreases lines.len(),
{
    if lines.len() == 0 {
        Seq::empty()
    } else {
        keys_of_lines(lines.drop_last()) + if is_key_line(lines.last()) {
            seq![key_of(lines.last())]
        } else {
            Seq::empty()
        }
    }
}

/// Why a setup record was refused.
#[derive(Clone, Copy, Debug, PartialEq, Eq, Structural)]
pub enum MalformedSetupError {
    /// No threshold line was found.
    MissingThreshold,
    /// More than one threshold line was found.
    DuplicateThreshold,
    /// No cosigner line was found.
    NoCosigners,
    /// No derivation line was found.
    MissingDerivation,
    /// The derivation line does not carry an "m/"-rooted path.
    InvalidDerivation,
    /// A cosigner line's key string fails the syntactic check.
    InvalidKeyMaterial,
    /// Two cosigner lines share a fingerprint.
    DuplicateFingerprint,
    /// The declared threshold is zero or exceeds the cosigner count.
    ThresholdOutOfRange,
}

/// All key strings of a key sequence pass the syntactic check.
pub open spec fn all_keys_valid(keys: Seq<(Seq<char>, Seq<char>)>) -> bool {
    forall|i: int| 0 <= i < keys.len() ==> valid_key_material(#[trigger] keys[i].1)
}

/// No two entries of a key sequence share a fingerprint.
pub open spec fn fingerprints_unique(keys: Seq<(Seq<char>, Seq<char>)>) -> bool {
    forall|i: int, j: int| 0 <= i < j < keys.len() ==> keys[i].0 != keys[j].0
}

/// What parsing a setup record yields: the assembled setup, or the
/// first refusal in a fixed order of checks.
pub open spec fn spec_parse(text: Seq<char>) -> Result<SetupView, MalformedSetupError> {
    let lines = spec_lines(text);
    let keys = keys_of_lines(lines);
    if threshold_count(lines) == 0 {
        Err(MalformedSetupError::MissingThreshold)
    } else if threshold_count(lines) > 1 {
        Err(MalformedSetupError::DuplicateThreshold)
    } else if keys.len() == 0 {
        Err(MalformedSetupError::NoCosigners)
    } else if last_derivation(lines) is None {
        Err(MalformedSetupError::MissingDerivation)
    } else if !valid_derivation(last_derivation(lines)->Some_0) {
        Err(MalformedSetupError::InvalidDerivation)
    } else if !all_keys_valid(keys) {
        Err(MalformedSetupError::InvalidKeyMaterial)
    } else if !fingerprints_unique(keys) {
        Err(MalformedSetupError::DuplicateFingerprint)
    } else if !(1 <= last_threshold(lines) <= keys.len()) {
        Err(MalformedSetupError::ThresholdOutOfRange)
    } else {
        Ok(
            SetupView {
                threshold: last_threshold(lines),
                derivation: last_derivation(lines)->Some_0,
                format: last_format(lines),
                keys,
            },
        )
    }
}

// ---------------------------------------------------------------------
// Recognizing the line shapes
// ---------------------------------------------------------------------
fn is_threshold_line_exec(l: &str) -> (r: bool)
    ensures
        r == is_threshold_line(l@),
{
    proof {
        reveal_strlit("Policy: ");
        assert("Policy: "@ =~= policy_prefix());
    }
    let n = l.unicode_len();
    if n < 14 {
        return false;
    }
    if !str_has_prefix(l, "Policy: ") {
        return false;
    }
    let c8 = l.get_char(8) as u32;
    if !(48 <= c8 && c8 <= 57) {
        return false;
    }
    if l.get_char(9) != ' ' || l.get_char(10) != 'o' || l.get_char(11) != 'f' || l.get_char(12)
        != ' ' {
        return false;
    }
    let c13 = l.get_char(13) as u32;
    48 <= c13 && c13 <= 57
}

fn is_derivation_line_exec(l: &str) -> (r: bool)
    ensures
        r == is_derivation_line(l@),
{
    proof {
        reveal_strlit("Derivation: ");
        assert("Derivation: "@ =~= derivation_prefix());
    }
    l.unicode_len() > 12 && str_has_prefix(l, "Derivation: ")
}

fn is_format_line_exec(l: &str) -> (r: bool)
    ensures
        r == is_format_line(l@),
{
    proof {
        reveal_strlit("Format: ");
        assert("Format: "@ =~= format_prefix());
    }
    l.unicode_len() > 8 && str_has_prefix(l, "Format: ")
}

fn is_key_line_exec(l: &str) -> (r: bool)
    ensures
        r == is_key_line(l@),
{
    let n = l.unicode_len();
    if n < 11 {
        return false;
    }
    let mut i: usize = 0;
    while i < 8
        invariant
            0 <= i <= 8,
            n == l@.len(),
            n >= 11,
            forall|j: int| 0 <= j < i ==> is_upper_hex(#[trigger] l@[j]),
        decreases 8 - i,
    {
        let c = l.get_char(i) as u32;
        if !((48 <= c && c <= 57) || (65 <= c && c <= 70)) {
            proof {
                assert(!is_upper_hex(l@[i as int]));
            }
            return false;
        }
        i = i + 1;
    }
    l.get_char(8) == ':' && l.get_char(9) == ' '
}

fn is_valid_key_material_exec(s: &str) -> (r: bool)
    ensures
        r == valid_key_material(s@),
{
    let n = s.unicode_len();
    if n == 0 {
        return false;
    }
    let mut i: usize = 0;
    while i < n
        invariant
            0 <= i <= n,
            n == s@.len(),
            forall|j: int| 0 <= j < i ==> is_alnum(#[trigger] s@[j]),
        decreases n - i,
    {
        let c = s.get_char(i) as u32;
        if !((48 <= c && c <= 57) || (65 <= c && c <= 90) || (97 <= c && c <= 122)) {
            proof {
                assert(!is_alnum(s@[i as int]));
            }
            return false;
        }
        i = i + 1;
    }
    true
}

fn is_valid_derivation_exec(s: &str) -> (r: bool)
    ensures
        r == valid_derivation(s@),
{
    let n = s.unicode_len();
    if n < 2 {
        return false;
    }
    if s.get_char(0) != 'm' || s.get_char(1) != '/' {
        return false;
    }
    let mut i: usize = 2;
    while i < n
        invariant
            2 <= i <= n,
            n == s@.len(),
            forall|j: int| 2 <= j < i ==> is_derivation_char(#[trigger] s@[j]),
        decreases n - i,
    {
        let c = s.get_char(i);
        let v = c as u32;
        if !((48 <= v && v <= 57) || c == '\'' || c == 'h' || c == 'H' || c == '/') {
            proof {
                assert(!is_derivation_char(s@[i as int]));
            }
            return false;
        }
        i = i + 1;
    }
    true
}

// ---------------------------------------------------------------------
// Parsing
// ---------------------------------------------------------------------
/// The view of an optional owned string.
pub open spec fn view_opt(o: Option<String>) -> Option<Seq<char>> {
    match o {
        Some(s) => Some(s@),
        None => None,
    }
}

/// Every cosigner entry a record's lines yield carries a well-formed
/// fingerprint.
proof fn lemma_keys_of_lines_fingerprints(lines: Seq<Seq<char>>)
    ensures
        forall|i: int|
            0 <= i < keys_of_lines(lines).len() ==> valid_fingerprint(
                #[trigger] keys_of_lines(lines)[i].0,
            ) && keys_of_lines(lines)[i].1.len() > 0,
    decreases lines.len(),
{
    if lines.len() == 0 {
    } else {
        lemma_keys_of_lines_fingerprints(lines.drop_last());
        let pre = keys_of_lines(lines.drop_last());
        if is_key_line(lines.last()) {
            let l = lines.last();
            assert forall|i: int| 0 <= i < 8 implies is_upper_hex(#[trigger] key_of(l).0[i]) by {
                assert(l.take(8)[i] == l[i]);
            }
            assert(valid_fingerprint(key_of(l).0));
            assert(key_of(l).1.len() == l.len() - 10);
            assert(keys_of_lines(lines) == pre + seq![key_of(l)]);
            assert forall|i: int| 0 <= i < keys_of_lines(lines).len() implies valid_fingerprint(
                #[trigger] keys_of_lines(lines)[i].0,
            ) && keys_of_lines(lines)[i].1.len() > 0 by {
                if i < pre.len() {
                    assert(keys_of_lines(lines)[i] == pre[i]);
                } else {
                    assert(keys_of_lines(lines)[i] == key_of(l));
                }
            }
        } else {
            assert(keys_of_lines(lines) =~= pre);
        }
    }
}

impl DescriptorComponents {
    /// Parses a line-oriented cosigner setup record. Lines that match
    /// none of the recognized shapes are ignored; the record must
    /// declare exactly one threshold, at least one cosigner, and a
    /// well-formed shared derivation path, with syntactically valid
    /// key strings and pairwise distinct fingerprints.
    #[verifier::loop_isolation(false)]
    pub fn from_bluewallet_export(bw_export: &str) -> (r: Result<
        DescriptorComponents,
        MalformedSetupError,
    >)
        ensures
            match r {
                Ok(c) => spec_parse(bw_export@) == Ok::<SetupView, MalformedSetupError>(c@)
                    && c.wf(),
                Err(e) => spec_parse(bw_export@) == Err::<SetupView, MalformedSetupError>(e),
            },
    {
        let lines = split_lines(bw_export);
        let ghost ls = spec_lines(bw_export@);
        let n = lines.len();
        let mut tcount: usize = 0;
        let mut tval: u64 = 0;
        let mut derivation: Option<String> = None;
        let mut format: Option<String> = None;
        let mut keys: Vec<(String, String)> = Vec::new();
        proof {
            assert(ls.take(0) =~= Seq::<Seq<char>>::empty());
            assert(keys@.map_values(|kv: (String, String)| (kv.0@, kv.1@)) =~= keys_of_lines(
                ls.take(0),
            ));
        }
        let mut i: usize = 0;
        while i < n
            invariant
                0 <= i <= n,
                n == lines@.len(),
                ls == lines@.map_values(|l: String| l@),
                tcount <= i,
                tcount as int == threshold_count(ls.take(i as int)),
                tval as int == last_threshold(ls.take(i as int)),
                view_opt(derivation) == last_derivation(ls.take(i as int)),
                view_opt(format) == last_format(ls.take(i as int)),
                keys@.map_values(|kv: (String, String)| (kv.0@, kv.1@)) == keys_of_lines(
                    ls.take(i as int),
                ),
            decreases n - i,
        {
            let l = lines[i].as_str();
            proof {
                assert(l@ == ls[i as int]);
                assert(ls.take(i + 1 as int).drop_last() =~= ls.take(i as int));
                assert(ls.take(i + 1 as int).last() == ls[i as int]);
            }
            let ghost keys_pre = keys@.map_values(|kv: (String, String)| (kv.0@, kv.1@));
            let ln = l.unicode_len();
            if is_threshold_line_exec(l) {
                tcount = tcount + 1;
                let c8 = l.get_char(8) as u32;
                tval = (c8 - 48) as u64;
            }
            if is_derivation_line_exec(l) {
                let d = l.substring_char(12, ln).to_owned();
                proof {
                    assert(d@ =~= derivation_of(l@));
                }
                derivation = Some(d);
            }
            if is_format_line_exec(l) {
                let f = l.substring_char(8, ln).to_owned();
                proof {
                    assert(f@ =~= format_of(l@));
                }
                format = Some(f);
            }
            if is_key_line_exec(l) {
                let fp = l.substring_char(0, 8).to_owned();
                let km = l.substring_char(10, ln).to_owned();
                proof {
                    assert(fp@ =~= key_of(l@).0);
                    assert(km@ =~= key_of(l@).1);
                }
                keys.push((fp, km));
                proof {
                    assert(keys@.map_values(|kv: (String, String)| (kv.0@, kv.1@)) =~= keys_pre
                        + seq![key_of(ls[i as int])]);
                }
            } else {
                proof {
                    assert(keys_of_lines(ls.take(i + 1 as int)) =~= keys_of_lines(
                        ls.take(i as int),
                    ));
                }
            }
            i = i + 1;
        }
        proof {
            assert(ls.take(n as int) =~= ls);
        }
        if tcount == 0 {
            return Err(MalformedSetupError::MissingThreshold);
        }
        if tcount > 1 {
            return Err(MalformedSetupError::DuplicateThreshold);
        }
        if keys.len() == 0 {
            return Err(MalformedSetupError::NoCosigners);
        }
        let deriv = match derivation {
            Some(d) => d,
            None => {
                return Err(MalformedSetupError::MissingDerivation);
            },
        };
        if !is_valid_derivation_exec(deriv.as_str()) {
            return Err(MalformedSetupError::InvalidDerivation);
        }
        let ghost skeys = keys@.map_values(|kv: (String, String)| (kv.0@, kv.1@));
        let kn = keys.len();
        let mut a: usize = 0;
        while a < kn
            invariant
                0 <= a <= kn,
                kn == keys@.len(),
                skeys == keys@.map_values(|kv: (String, String)| (kv.0@, kv.1@)),
                forall|j: int| 0 <= j < a ==> valid_key_material(#[trigger] skeys[j].1),
            decreases kn - a,
        {
            if !is_valid_key_material_exec(keys[a].1.as_str()) {
                proof {
                    assert(!valid_key_material(skeys[a as int].1));
                }
                return Err(MalformedSetupError::InvalidKeyMaterial);
            }
            a = a + 1;
        }
        let mut a: usize = 0;
        while a < kn
            invariant
                0 <= a <= kn,
                kn == keys@.len(),
                skeys == keys@.map_values(|kv: (String, String)| (kv.0@, kv.1@)),
                forall|p: int, q: int| 0 <= p < q < kn && p < a ==> skeys[p].0 != skeys[q].0,
            decreases kn - a,
        {
            let mut b: usize = a + 1;
            while b < kn
                invariant
                    0 <= a < b <= kn,
                    kn == keys@.len(),
                    skeys == keys@.map_values(|kv: (String, String)| (kv.0@, kv.1@)),
                    forall|q: int| a < q < b ==> skeys[a as int].0 != skeys[q].0,
                decreases kn - b,
            {
                if keys[a].0.eq(&keys[b].0) {
                    proof {
                        assert(skeys[a as int].0 == skeys[b as int].0);
                        assert(!fingerprints_unique(skeys));
                    }
                    return Err(MalformedSetupError::DuplicateFingerprint);
                }
                b = b + 1;
            }
            a = a + 1;
        }
        if !(1 <= tval && tval <= kn as u64) {
            return Err(MalformedSetupError::ThresholdOutOfRange);
        }
        let c = DescriptorComponents { threshold: tval, derivation: deriv, format, keys };
        proof {
            lemma_keys_of_lines_fingerprints(ls);
            assert(c@ == spec_parse(bw_export@)->Ok_0);
            assert(c.wf());
        }
        Ok(c)
    }
}

// ---------------------------------------------------------------------
// Rendering
// ---------------------------------------------------------------------
/// The template that opens every descriptor this library renders.
pub open spec fn template_prefix() -> Seq<char> {
    seq!['w', 's', 'h', '(', 's', 'o', 'r', 't', 'e', 'd', 'm', 'u', 'l', 't', 'i', '(']
}

/// The template that closes every descriptor this library renders.
pub open spec fn template_suffix() -> Seq<char> {
    seq![')', ')']
}

/// One rendered cosigner entry: a comma, the key origin (fingerprint
/// and the derivation path without its "m/" prefix) in brackets, the
/// key material, the branch index, and the wildcard suffix.
pub open spec fn spec_key_entry(
    key: (Seq<char>, Seq<char>),
    derivation: Seq<char>,
    branch: Seq<char>,
) -> Seq<char> {
    seq![',', '['] + key.0 + seq!['/'] + derivation.skip(2) + seq![']'] + key.1 + seq!['/']
        + branch + seq!['/', '*']
}

/// The rendered entries for a sequence of cosigners, one entry per
/// cosigner, in order.
pub open spec fn spec_key_entries(
    keys: Seq<(Seq<char>, Seq<char>)>,
    derivation: Seq<char>,
    branch: Seq<char>,
) -> Seq<char>
    decreases keys.len(),
{
    if keys.len() == 0 {
        Seq::empty()
    } else {
        spec_key_entries(keys.drop_last(), derivation, branch) + spec_key_entry(
            keys.last(),
            derivation,
            branch,
        )
    }
}

/// The full canonical descriptor for one branch: the template prefix,
/// the threshold in decimal, every cosigner entry in original order,
/// and the template suffix.
pub open spec fn spec_descriptor(v: SetupView, branch: Seq<char>) -> Seq<char> {
    template_prefix() + dec_seq(v.threshold) + spec_key_entries(v.keys, v.derivation, branch)
        + template_suffix()
}

impl DescriptorComponents {
    /// Renders the canonical sorted-multisig descriptor for the given
    /// branch ("0" for receive, "1" for change). Pure and total on
    /// structurally valid setups; byte-for-byte deterministic.
    pub fn into_descriptor_str(&self, desc_type: &str) -> (r: String)
        requires
            self.wf(),
        ensures
            r@ == spec_descriptor(self@, desc_type@),
    {
        let mut descriptor = String::from_str("wsh(sortedmulti(");
        proof {
            reveal_strlit("wsh(sortedmulti(");
            assert(descriptor@ =~= template_prefix());
        }
        push_dec(&mut descriptor, self.threshold as u128);
        let deriv = self.derivation.as_str();
        let deriv_len = deriv.unicode_len();
        let deriv_rest = deriv.substring_char(2, deriv_len);
        proof {
            assert(deriv_rest@ =~= self@.derivation.skip(2));
        }
        let n = self.keys.len();
        let mut i: usize = 0;
        while i < n
            invariant
                0 <= i <= n,
                n == self.keys.len(),
                self.wf(),
                deriv_rest@ == self@.derivation.skip(2),
                descriptor@ == template_prefix() + dec_seq(self@.threshold)
                    + spec_key_entries(self@.keys.take(i as int), self@.derivation, desc_type@),
            decreases n - i,
        {
            let ghost pre = descriptor@;
            descriptor.append(",[");
            descriptor.append(self.keys[i].0.as_str());
            descriptor.append("/");
            descriptor.append(deriv_rest);
            descriptor.append("]");
            descriptor.append(self.keys[i].1.as_str());
            descriptor.append("/");
            descriptor.append(desc_type);
            descriptor.append("/*");
            proof {
                reveal_strlit(",[");
                reveal_strlit("/");
                reveal_strlit("]");
                reveal_strlit("/*");
                assert(",["@ =~= seq![',', '[']);
                assert("/"@ =~= seq!['/']);
                assert("]"@ =~= seq![']']);
                assert("/*"@ =~= seq!['/', '*']);
                let keyv = self@.keys[i as int];
                assert(keyv == (self.keys@[i as int].0@, self.keys@[i as int].1@));
                assert(descriptor@ =~= pre + spec_key_entry(
                    keyv,
                    self@.derivation,
                    desc_type@,
                ));
                assert(self@.keys.take(i + 1 as int).drop_last() =~= self@.keys.take(i as int));
                assert(self@.keys.take(i + 1 as int).last() == keyv);
                assert(descriptor@ =~= template_prefix() + dec_seq(self@.threshold)
                    + spec_key_entries(
                    self@.keys.take(i + 1 as int),
                    self@.derivation,
                    desc_type@,
                ));
            }
            i = i + 1;
        }
        descriptor.append("))");
        proof {
            reveal_strlit("))");
            assert("))"@ =~= template_suffix());
            assert(self@.keys.take(n as int) =~= self@.keys);
            assert(descriptor@ =~= spec_descriptor(self@, desc_type@));
        }
        descriptor
    }

    /// The descriptor for the receive branch (branch index 0).
    pub fn into_main_descriptor(&self) -> (r: String)
        requires
            self.wf(),
        ensures
            r@ == spec_descriptor(self@, seq!['0']),
    {
        let r = self.into_descriptor_str("0");
        proof {
            reveal_strlit("0");
            assert("0"@ =~= seq!['0']);
        }
        r
    }

    /// The descriptor for the change branch (branch index 1).
    pub fn into_change_descriptor(&self) -> (r: String)
        requires
            self.wf(),
        ensures
            r@ == spec_descriptor(self@, seq!['1']),
    {
        let r = self.into_descriptor_str("1");
        proof {
            reveal_strlit("1");
            assert("1"@ =~= seq!['1']);
        }
        r
    }
}

// ---------------------------------------------------------------------
// Key material substitution
// ---------------------------------------------------------------------
/// An ASCII code point with a lower-case letter folded to upper case.
pub open spec fn fold_code(v: int) -> int {
    if 97 <= v <= 122 {
        v - 32
    } else {
        v
    }
}

/// Case-insensitive character equality.
pub open spec fn eq_char_ci(a: char, b: char) -> bool {
    fold_code(a as int) == fold_code(b as int)
}

/// Case-insensitive string equality.
pub open spec fn eq_ci(a: Seq<char>, b: Seq<char>) -> bool {
    a.len() == b.len() && forall|i: int| 0 <= i < a.len() ==> eq_char_ci(#[trigger] a[i], b[i])
}

fn str_eq_ci(a: &str, b: &str) -> (r: bool)
    ensures
        r == eq_ci(a@, b@),
{
    let an = a.unicode_len();
    let bn = b.unicode_len();
    if an != bn {
        return false;
    }
    let mut i: usize = 0;
    while i < an
        invariant
            0 <= i <= an,
            an == a@.len(),
            an == b@.len(),
            forall|j: int| 0 <= j < i ==> eq_char_ci(#[trigger] a@[j], b@[j]),
        decreases an - i,
    {
        let ca = a.get_char(i) as u32;
        let cb = b.get_char(i) as u32;
        let fa = if 97 <= ca && ca <= 122 {
            ca - 32
        } else {
            ca
        };
        let fb = if 97 <= cb && cb <= 122 {
            cb - 32
        } else {
            cb
        };
        if fa != fb {
            proof {
                assert(!eq_char_ci(a@[i as int], b@[i as int]));
            }
            return false;
        }
        i = i + 1;
    }
    true
}

/// The bare extended key inside a stored key record: the content after
/// the last "]" (dropping any origin prefix) and before the first "/"
/// that follows it (dropping any trailing derivation suffix).
pub open spec fn trim_key_record(r: Seq<char>) -> Seq<char> {
    let after = if rfind_char(r, ']') >= 0 {
        r.skip(rfind_char(r, ']') + 1)
    } else {
        r
    };
    if find_char(after, '/') >= 0 {
        after.take(find_char(after, '/'))
    } else {
        after
    }
}

#[verifier::loop_isolation(false)]
fn trim_key_record_exec(record: &str) -> (r: String)
    ensures
        r@ == trim_key_record(record@),
{
    let n = record.unicode_len();
    let mut last_br: Option<usize> = None;
    let mut j: usize = 0;
    while j < n
        invariant
            0 <= j <= n,
            match last_br {
                Some(k) => {
                    &&& k < j
                    &&& record@[k as int] == ']'
                    &&& forall|m: int| k < m < j ==> record@[m] != ']'
                },
                None => forall|m: int| 0 <= m < j ==> record@[m] != ']',
            },
        decreases n - j,
    {
        if record.get_char(j) == ']' {
            last_br = Some(j);
        }
        j = j + 1;
    }
    let cut = match last_br {
        Some(k) => {
            proof {
                lemma_rfind_char_is_last(record@, ']', k as int);
            }
            k + 1
        },
        None => {
            proof {
                lemma_rfind_char(record@, ']');
                if rfind_char(record@, ']') >= 0 {
                    assert(record@[rfind_char(record@, ']')] == ']');
                }
            }
            0
        },
    };
    let after = record.substring_char(cut, n);
    proof {
        if cut > 0 {
            assert(after@ =~= record@.skip(rfind_char(record@, ']') + 1));
        } else {
            assert(after@ =~= record@);
        }
    }
    let an = after.unicode_len();
    let end = match find_char_at(after, 0, '/') {
        Some(e) => {
            proof {
                lemma_find_char_is_first(after@, '/', e as int);
            }
            e
        },
        None => {
            proof {
                lemma_find_char(after@, '/');
                if find_char(after@, '/') >= 0 {
                    assert(after@[find_char(after@, '/')] == '/');
                }
            }
            an
        },
    };
    let trimmed = after.substring_char(0, end).to_owned();
    proof {
        if end < an {
            assert(trimmed@ =~= after@.take(find_char(after@, '/')));
        } else {
            assert(trimmed@ =~= after@);
        }
    }
    trimmed
}

/// Index of the first cosigner whose fingerprint matches `fp` up to
/// letter case, or -1 when none does.
pub open spec fn ci_match_index(keys: Seq<(Seq<char>, Seq<char>)>, fp: Seq<char>) -> int
    decreases keys.len(),
{
    if keys.len() == 0 {
        -1
    } else if eq_ci(keys[0].0, fp) {
        0
    } else {
        let r = ci_match_index(keys.skip(1), fp);
        if r < 0 {
            -1
        } else {
            r + 1
        }
    }
}

pub proof fn lemma_ci_match(keys: Seq<(Seq<char>, Seq<char>)>, fp: Seq<char>)
    ensures
        ci_match_index(keys, fp) >= 0 ==> {
            &&& ci_match_index(keys, fp) < keys.len()
            &&& eq_ci(keys[ci_match_index(keys, fp)].0, fp)
            &&& forall|j: int| 0 <= j < ci_match_index(keys, fp) ==> !eq_ci(keys[j].0, fp)
        },
        ci_match_index(keys, fp) < 0 ==> forall|j: int|
            0 <= j < keys.len() ==> !eq_ci(keys[j].0, fp),
    decreases keys.len(),
{
    if keys.len() == 0 {
    } else if eq_ci(keys[0].0, fp) {
    } else {
        lemma_ci_match(keys.skip(1), fp);
        let r = ci_match_index(keys.skip(1), fp);
        assert forall|j: int| 1 <= j < keys.len() implies keys[j] == keys.skip(1)[j - 1] by {}
        if r >= 0 {
            assert(keys[r + 1] == keys.skip(1)[r]);
            assert forall|j: int| 0 <= j < r + 1 implies !eq_ci(keys[j].0, fp) by {
                if j >= 1 {
                    assert(keys[j] == keys.skip(1)[j - 1]);
                }
            }
        } else {
            assert forall|j: int| 0 <= j < keys.len() implies !eq_ci(keys[j].0, fp) by {
                if j >= 1 {
                    assert(keys[j] == keys.skip(1)[j - 1]);
                }
            }
        }
    }
}

pub proof fn lemma_ci_match_is_first(keys: Seq<(Seq<char>, Seq<char>)>, fp: Seq<char>, i: int)
    requires
        0 <= i < keys.len(),
        eq_ci(keys[i].0, fp),
        forall|j: int| 0 <= j < i ==> !eq_ci(keys[j].0, fp),
    ensures
        ci_match_index(keys, fp) == i,
{
    lemma_ci_match(keys, fp);
    let f = ci_match_index(keys, fp);
    if f < 0 {
        assert(!eq_ci(keys[i].0, fp));
    } else if f < i {
        assert(!eq_ci(keys[f].0, fp));
    } else if f > i {
        assert(!eq_ci(keys[i].0, fp));
    }
}

/// Why a substitution was refused.
#[derive(Clone, Copy, Debug, PartialEq, Eq, Structural)]
pub enum SubstituteError {
    /// No cosigner's fingerprint matches the requested one.
    UnknownCosigner,
    /// The trimmed private key record fails the syntactic check.
    MalformedKeyMaterial,
}

/// What substituting one cosigner's key material yields: the setup with
/// exactly the matching entry's key material replaced by the trimmed
/// record, or a refusal. The setup itself is never mutated in place.
pub open spec fn spec_substitute(v: SetupView, fp: Seq<char>, record: Seq<char>) -> Result<
    SetupView,
    SubstituteError,
> {
    let i = ci_match_index(v.keys, fp);
    if i < 0 {
        Err(SubstituteError::UnknownCosigner)
    } else if !valid_key_material(trim_key_record(record)) {
        Err(SubstituteError::MalformedKeyMaterial)
    } else {
        Ok(
            SetupView {
                keys: v.keys.update(i, (v.keys[i].0, trim_key_record(record))),
                ..v
            },
        )
    }
}

impl DescriptorComponents {
    /// Replaces the key material of the one cosigner whose fingerprint
    /// matches `fingerprint` up to letter case with the bare extended
    /// key trimmed out of `private_key_record`. Returns a new setup;
    /// the receiver is left untouched. Fails when no cosigner matches,
    /// or when the trimmed record is not a syntactically valid key.
    #[verifier::loop_isolation(false)]
    pub fn substitute(&self, fingerprint: &str, private_key_record: &str) -> (r: Result<
        DescriptorComponents,
        SubstituteError,
    >)
        ensures
            match r {
                Ok(c) => spec_substitute(self@, fingerprint@, private_key_record@)
                    == Ok::<SetupView, SubstituteError>(c@) && (self.wf() ==> c.wf()),
                Err(e) => spec_substitute(self@, fingerprint@, private_key_record@)
                    == Err::<SetupView, SubstituteError>(e),
            },
    {
        let n = self.keys.len();
        let mut i: usize = 0;
        while i < n
            invariant
                0 <= i <= n,
                forall|j: int| 0 <= j < i ==> !eq_ci(#[trigger] self@.keys[j].0, fingerprint@),
            decreases n - i,
        {
            if str_eq_ci(self.keys[i].0.as_str(), fingerprint) {
                proof {
                    lemma_ci_match_is_first(self@.keys, fingerprint@, i as int);
                }
                let trimmed = trim_key_record_exec(private_key_record);
                if !is_valid_key_material_exec(trimmed.as_str()) {
                    return Err(SubstituteError::MalformedKeyMaterial);
                }
                let ghost target = self@.keys.update(
                    i as int,
                    (self@.keys[i as int].0, trimmed@),
                );
                let mut new_keys: Vec<(String, String)> = Vec::new();
                proof {
                    assert(new_keys@.map_values(|kv: (String, String)| (kv.0@, kv.1@))
                        =~= target.take(0));
                }
                let mut j: usize = 0;
                while j < n
                    invariant
                        0 <= j <= n,
                        new_keys@.map_values(|kv: (String, String)| (kv.0@, kv.1@))
                            == target.take(j as int),
                    decreases n - j,
                {
                    let ghost pre = new_keys@.map_values(|kv: (String, String)| (kv.0@, kv.1@));
                    if j == i {
                        new_keys.push((self.keys[j].0.clone(), trimmed.clone()));
                    } else {
                        new_keys.push((self.keys[j].0.clone(), self.keys[j].1.clone()));
                    }
                    proof {
                        assert(new_keys@.map_values(|kv: (String, String)| (kv.0@, kv.1@))
                            =~= pre + seq![target[j as int]]);
                        assert(target.take(j + 1 as int) =~= target.take(j as int) + seq![
                            target[j as int],
                        ]);
                    }
                    j = j + 1;
                }
                proof {
                    assert(target.take(n as int) =~= target);
                }
                let format = match &self.format {
                    Some(f) => Some(f.clone()),
                    None => None,
                };
                let c = DescriptorComponents {
                    threshold: self.threshold,
                    derivation: self.derivation.clone(),
                    format,
                    keys: new_keys,
                };
                proof {
                    assert(c@ =~= spec_substitute(
                        self@,
                        fingerprint@,
                        private_key_record@,
                    )->Ok_0);
                    if self.wf() {
                        assert forall|p: int|
                            0 <= p < c@.keys.len() implies valid_fingerprint(
                            #[trigger] c@.keys[p].0,
                        ) && valid_key_material(c@.keys[p].1) by {
                            if p != i as int {
                                assert(c@.keys[p] == self@.keys[p]);
                            }
                        }
                        assert forall|p: int, q: int|
                            0 <= p < q < c@.keys.len() implies c@.keys[p].0 != c@.keys[q].0 by {
                            assert(c@.keys[p].0 == self@.keys[p].0);
                            assert(c@.keys[q].0 == self@.keys[q].0);
                        }
                        assert(c.wf());
                    }
                }
                return Ok(c);
            }
            i = i + 1;
        }
        proof {
            lemma_ci_match(self@.keys, fingerprint@);
            if ci_match_index(self@.keys, fingerprint@) >= 0 {
                assert(eq_ci(self@.keys[ci_match_index(self@.keys, fingerprint@)].0, fingerprint@));
            }
        }
        Err(SubstituteError::UnknownCosigner)
    }
}

// ---------------------------------------------------------------------
// Laws of rendering and substitution
// ---------------------------------------------------------------------
/// How many times `c` occurs in `s`.
pub open spec fn count_char(s: Seq<char>, c: char) -> int
    decreases s.len(),
{
    if s.len() == 0 {
        0
    } else {
        count_char(s.drop_last(), c) + if s.last() == c {
            1int
        } else {
            0int
        }
    }
}

proof fn lemma_count_char_none(s: Seq<char>, c: char)
    requires
        forall|i: int| 0 <= i < s.len() ==> s[i] != c,
    ensures
        count_char(s, c) == 0,
    decreases s.len(),
{
    if s.len() == 0 {
    } else {
        assert forall|i: int| 0 <= i < s.len() - 1 implies s.drop_last()[i] != c by {
            assert(s.drop_last()[i] == s[i]);
        }
        lemma_count_char_none(s.drop_last(), c);
    }
}

proof fn lemma_count_char_app(a: Seq<char>, b: Seq<char>, c: char)
    ensures
        count_char(a + b, c) == count_char(a, c) + count_char(b, c),
    decreases b.len(),
{
    if b.len() == 0 {
        assert(a + b =~= a);
    } else {
        assert((a + b).drop_last() =~= a + b.drop_last());
        assert((a + b).last() == b.last());
        lemma_count_char_app(a, b.drop_last(), c);
    }
}

proof fn lemma_dec_seq_digits(n: int)
    requires
        n >= 0,
    ensures
        forall|i: int| 0 <= i < dec_seq(n).len() ==> is_digit(#[trigger] dec_seq(n)[i]),
    decreases n,
{
    if n < 10 {
        assert(dec_seq(n) == seq![digit_char(n)]);
        assert(is_digit(digit_char(n)));
    } else {
        lemma_dec_seq_digits(n / 10);
        assert(is_digit(digit_char(n % 10)));
        assert forall|i: int| 0 <= i < dec_seq(n).len() implies is_digit(
            #[trigger] dec_seq(n)[i],
        ) by {
            if i < dec_seq(n / 10).len() {
                assert(dec_seq(n)[i] == dec_seq(n / 10)[i]);
            } else {
                assert(dec_seq(n)[i] == digit_char(n % 10));
            }
        }
    }
}

proof fn lemma_entry_bracket_count(
    key: (Seq<char>, Seq<char>),
    derivation: Seq<char>,
    branch: Seq<char>,
)
    requires
        valid_fingerprint(key.0),
        valid_key_material(key.1),
        valid_derivation(derivation),
        forall|i: int| 0 <= i < branch.len() ==> branch[i] != '[',
    ensures
        count_char(spec_key_entry(key, derivation, branch), '[') == 1,
{
    reveal_with_fuel(count_char, 3);
    let head = seq![',', '['];
    let slash = seq!['/'];
    let close = seq![']'];
    let tail = seq!['/', '*'];
    assert(count_char(head, '[') == 1);
    assert(count_char(slash, '[') == 0);
    assert(count_char(close, '[') == 0);
    assert(count_char(tail, '[') == 0);
    assert forall|i: int| 0 <= i < key.0.len() implies key.0[i] != '[' by {
        assert(is_upper_hex(key.0[i]));
    }
    lemma_count_char_none(key.0, '[');
    assert forall|i: int| 0 <= i < key.1.len() implies key.1[i] != '[' by {
        assert(is_alnum(key.1[i]));
    }
    lemma_count_char_none(key.1, '[');
    assert forall|i: int| 0 <= i < derivation.skip(2).len() implies derivation.skip(2)[i]
        != '[' by {
        assert(derivation.skip(2)[i] == derivation[i + 2]);
        assert(is_derivation_char(derivation[i + 2]));
    }
    lemma_count_char_none(derivation.skip(2), '[');
    lemma_count_char_none(branch, '[');
    lemma_count_char_app(head, key.0, '[');
    lemma_count_char_app(head + key.0, slash, '[');
    lemma_count_char_app(head + key.0 + slash, derivation.skip(2), '[');
    lemma_count_char_app(head + key.0 + slash + derivation.skip(2), close, '[');
    lemma_count_char_app(head + key.0 + slash + derivation.skip(2) + close, key.1, '[');
    lemma_count_char_app(head + key.0 + slash + derivation.skip(2) + close + key.1, slash, '[');
    lemma_count_char_app(
        head + key.0 + slash + derivation.skip(2) + close + key.1 + slash,
        branch,
        '[',
    );
    lemma_count_char_app(
        head + key.0 + slash + derivation.skip(2) + close + key.1 + slash + branch,
        tail,
        '[',
    );
}

proof fn lemma_entries_bracket_count(
    keys: Seq<(Seq<char>, Seq<char>)>,
    derivation: Seq<char>,
    branch: Seq<char>,
)
    requires
        forall|i: int|
            0 <= i < keys.len() ==> valid_fingerprint(#[trigger] keys[i].0) && valid_key_material(
                keys[i].1,
            ),
        valid_derivation(derivation),
        forall|i: int| 0 <= i < branch.len() ==> branch[i] != '[',
    ensures
        count_char(spec_key_entries(keys, derivation, branch), '[') == keys.len(),
    decreases keys.len(),
{
    if keys.len() == 0 {
    } else {
        assert forall|i: int|
            0 <= i < keys.drop_last().len() implies valid_fingerprint(
            #[trigger] keys.drop_last()[i].0,
        ) && valid_key_material(keys.drop_last()[i].1) by {
            assert(keys.drop_last()[i] == keys[i]);
        }
        lemma_entries_bracket_count(keys.drop_last(), derivation, branch);
        assert(keys.last() == keys[keys.len() - 1]);
        assert(valid_fingerprint(keys[keys.len() - 1].0));
        assert(valid_key_material(keys[keys.len() - 1].1));
        lemma_entry_bracket_count(keys.last(), derivation, branch);
        lemma_count_char_app(
            spec_key_entries(keys.drop_last(), derivation, branch),
            spec_key_entry(keys.last(), derivation, branch),
            '[',
        );
    }
}

/// The rendered descriptor opens with the fixed template, embeds the
/// threshold as the first parameter right after it, and holds exactly
/// one bracketed key origin per cosigner.
pub proof fn lemma_descriptor_shape(v: SetupView, branch: Seq<char>)
    requires
        v.wf(),
        forall|i: int| 0 <= i < branch.len() ==> branch[i] != '[',
    ensures
        spec_descriptor(v, branch).take(16) == template_prefix(),
        spec_descriptor(v, branch).subrange(16, 16 + dec_seq(v.threshold).len() as int)
            == dec_seq(v.threshold),
        count_char(spec_descriptor(v, branch), '[') == v.keys.len(),
{
    let d = spec_descriptor(v, branch);
    let dec = dec_seq(v.threshold);
    let entries = spec_key_entries(v.keys, v.derivation, branch);
    assert(d.take(16) =~= template_prefix());
    assert(d.subrange(16, 16 + dec.len() as int) =~= dec);
    lemma_dec_seq_digits(v.threshold);
    assert forall|i: int| 0 <= i < dec.len() implies dec[i] != '[' by {
        assert(is_digit(dec[i]));
    }
    lemma_count_char_none(template_prefix(), '[');
    lemma_count_char_none(dec, '[');
    lemma_count_char_none(template_suffix(), '[');
    lemma_entries_bracket_count(v.keys, v.derivation, branch);
    lemma_count_char_app(template_prefix(), dec, '[');
    lemma_count_char_app(template_prefix() + dec, entries, '[');
    lemma_count_char_app(template_prefix() + dec + entries, template_suffix(), '[');
}

/// Rendering is deterministic: two renderings of one setup for one
/// branch are identical strings.
pub proof fn lemma_render_deterministic(
    v: SetupView,
    branch: Seq<char>,
    r1: Seq<char>,
    r2: Seq<char>,
)
    requires
        r1 == spec_descriptor(v, branch),
        r2 == spec_descriptor(v, branch),
    ensures
        r1 == r2,
{
}

proof fn lemma_ci_match_index_update(
    keys: Seq<(Seq<char>, Seq<char>)>,
    i: int,
    km: Seq<char>,
    fp: Seq<char>,
)
    requires
        0 <= i < keys.len(),
    ensures
        ci_match_index(keys.update(i, (keys[i].0, km)), fp) == ci_match_index(keys, fp),
{
    let keys2 = keys.update(i, (keys[i].0, km));
    assert forall|j: int| 0 <= j < keys.len() implies keys2[j].0 == keys[j].0 by {}
    lemma_ci_match(keys, fp);
    lemma_ci_match(keys2, fp);
    let f = ci_match_index(keys, fp);
    let f2 = ci_match_index(keys2, fp);
    if f < 0 {
        if f2 >= 0 {
            assert(eq_ci(keys[f2].0, fp));
        }
    } else {
        lemma_ci_match_is_first(keys2, fp, f);
    }
}

/// An unknown fingerprint is refused outright, and no new setup is
/// produced; the input setup is returned untouched by the caller's
/// hands, substitution being a pure function of its arguments.
pub proof fn lemma_substitute_unknown(v: SetupView, fp: Seq<char>, record: Seq<char>)
    requires
        forall|j: int| 0 <= j < v.keys.len() ==> !eq_ci(#[trigger] v.keys[j].0, fp),
    ensures
        spec_substitute(v, fp, record) == Err::<SetupView, SubstituteError>(
            SubstituteError::UnknownCosigner,
        ),
{
    lemma_ci_match(v.keys, fp);
    if ci_match_index(v.keys, fp) >= 0 {
        assert(eq_ci(v.keys[ci_match_index(v.keys, fp)].0, fp));
    }
}

/// Substituting two different cosigners composes to the same setup in
/// either order.
pub proof fn lemma_substitution_commutes(
    v: SetupView,
    fpa: Seq<char>,
    ra: Seq<char>,
    fpb: Seq<char>,
    rb: Seq<char>,
)
    requires
        spec_substitute(v, fpa, ra) is Ok,
        spec_substitute(v, fpb, rb) is Ok,
        ci_match_index(v.keys, fpa) != ci_match_index(v.keys, fpb),
    ensures
        spec_substitute(spec_substitute(v, fpa, ra)->Ok_0, fpb, rb) is Ok,
        spec_substitute(spec_substitute(v, fpb, rb)->Ok_0, fpa, ra) is Ok,
        spec_substitute(spec_substitute(v, fpa, ra)->Ok_0, fpb, rb) == spec_substitute(
            spec_substitute(v, fpb, rb)->Ok_0,
            fpa,
            ra,
        ),
{
    let ia = ci_match_index(v.keys, fpa);
    let ib = ci_match_index(v.keys, fpb);
    lemma_ci_match(v.keys, fpa);
    lemma_ci_match(v.keys, fpb);
    let ta = trim_key_record(ra);
    let tb = trim_key_record(rb);
    let va = spec_substitute(v, fpa, ra)->Ok_0;
    let vb = spec_substitute(v, fpb, rb)->Ok_0;
    lemma_ci_match_index_update(v.keys, ia, ta, fpb);
    lemma_ci_match_index_update(v.keys, ib, tb, fpa);
    assert(ci_match_index(va.keys, fpb) == ib);
    assert(ci_match_index(vb.keys, fpa) == ia);
    let vab = spec_substitute(va, fpb, rb)->Ok_0;
    let vba = spec_substitute(vb, fpa, ra)->Ok_0;
    assert(vab.keys =~= vba.keys);
    assert(vab =~= vba);
}

} // verus!
