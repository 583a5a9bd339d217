//! The collaborators a whole-request save pulls from and writes through: a
//! pull-based source of multipart fields, a factory for spill destinations,
//! and in-memory implementations of both.

use vstd::prelude::*;
use vstd::set::Set;
use vstd::string::StringExecFns;
use crate::builder::{MemTarget, SpillTarget};
use crate::entries::FieldHeaders;
use crate::ioerr::IoError;
use crate::stream::FieldBody;

verus! {

/// One event a field source delivers: a decoded text field, a file field
/// with its byte stream, or a failure of the source itself.
#[derive(Debug)]
pub enum SourceItem {
    /// An already-decoded text field: headers and value.
    Text(FieldHeaders, String),
    /// A file field: headers and body stream.
    File(FieldHeaders, FieldBody),
    /// Reading the source fails at this point.
    Broken(IoError),
}

/// What one pull from a field source returns.
#[derive(Debug)]
pub enum ReadFieldResult {
    /// A text field arrived.
    Text(FieldHeaders, String),
    /// A file field arrived; the body stream is handed over whole.
    File(FieldHeaders, FieldBody),
    /// The stream of fields is exhausted.
    End,
    /// Reading the source failed.
    Failed(IoError),
}

/// A pull-based source of multipart fields. Each pull delivers the next
/// pending event; one field is fully resolved before the next is pulled.
pub trait FieldSource: Sized {
    /// The events still to be delivered, in delivery order.
    spec fn events(&self) -> Seq<SourceItem>;

    /// The pending events can be counted in a machine word, so the
    /// orchestrator's running counts cannot overflow.
    proof fn lemma_events_bounded(&self)
        ensures
            self.events().len() <= u64::MAX,
    ;

    fn read_field(&mut self) -> (r: ReadFieldResult)
        ensures
            match r {
                ReadFieldResult::End => old(self).events().len() == 0 && final(self).events()
                    == old(self).events(),
                ReadFieldResult::Text(h, s) => old(self).events().len() > 0 && old(
                    self,
                ).events()[0] == SourceItem::Text(h, s) && final(self).events() == old(
                    self,
                ).events().skip(1),
                ReadFieldResult::File(h, b) => old(self).events().len() > 0 && old(
                    self,
                ).events()[0] == SourceItem::File(h, b) && final(self).events() == old(
                    self,
                ).events().skip(1),
                ReadFieldResult::Failed(e) => old(self).events().len() > 0 && old(
                    self,
                ).events()[0] == SourceItem::Broken(e) && final(self).events() == old(
                    self,
                ).events().skip(1),
            },
    ;
}

/// An in-memory field source delivering a fixed list of events.
#[derive(Debug)]
pub struct MemFieldSource {
    items: Vec<SourceItem>,  // reversed: the last element is delivered next
}

impl MemFieldSource {
    /// A source that delivers the given events in order.
    pub fn new(items: Vec<SourceItem>) -> (s: MemFieldSource)
        ensures
            s.events() == items@,
    {
        let ghost all = items@;
        let mut remaining = items;
        let mut rev: Vec<SourceItem> = Vec::new();
        while remaining.len() > 0
            invariant
                remaining@ == all.take(remaining@.len() as int),
                rev@.len() + remaining@.len() == all.len(),
                forall|i: int| 0 <= i < rev@.len() ==> rev@[i] == all[all.len() - 1 - i],
            decreases remaining@.len(),
        {
            match remaining.pop() {
                Some(item) => {
                    proof {
                        assert(item == all[remaining@.len() as int]);
                        assert(remaining@ =~= all.take(remaining@.len() as int));
                    }
                    rev.push(item);
                }
                None => vstd::pervasive::unreached(),
            }
        }
        let s = MemFieldSource { items: rev };
        proof {
            if all.len() > 0 {
                assert forall|j: int| 0 <= j < all.len() implies s.events()[j] == all[j] by {
                    assert(s.events()[j] == rev@[all.len() - 1 - j]);
                }
            }
            assert(s.events() =~= all);
        }
        s
    }
}

impl FieldSource for MemFieldSource {
    closed spec fn events(&self) -> Seq<SourceItem> {
        self.items@.reverse()
    }

    proof fn lemma_events_bounded(&self) {
        broadcast use vstd::std_specs::vec::axiom_spec_len;

        assert(vstd::std_specs::vec::spec_vec_len(&self.items) == self.items@.len());
    }

    fn read_field(&mut self) -> (r: ReadFieldResult) {
        match self.items.pop() {
            None => {
                proof {
                    assert(old(self).events() =~= Seq::<SourceItem>::empty());
                }
                ReadFieldResult::End
            }
            Some(item) => {
                proof {
                    assert(old(self).events()[0] == item);
                    assert(self.events() =~= old(self).events().skip(1));
                }
                match item {
                    SourceItem::Text(h, s) => ReadFieldResult::Text(h, s),
                    SourceItem::File(h, b) => ReadFieldResult::File(h, b),
                    SourceItem::Broken(e) => ReadFieldResult::Failed(e),
                }
            }
        }
    }
}

/// Makes the spill destination for each file field of one save operation,
/// given the save directory's path: a destination under that directory, at
/// a path the factory has not issued before. A `flawless` factory makes
/// only destinations that create successfully and accept every write.
pub trait SpillFactory<D: SpillTarget> {
    /// Whether every destination this factory makes is reliable and
    /// guaranteed to create.
    spec fn flawless(&self) -> bool;

    /// The destination paths this factory has issued so far.
    spec fn issued(&self) -> Set<Seq<char>>;

    fn make_target(&mut self, dir: &String) -> (d: D)
        ensures
            !d.ready(),
            old(self).flawless() ==> d.reliable() && d.create_ok(),
            final(self).flawless() == old(self).flawless(),
            dir@.is_prefix_of(d.path()),
            old(self).issued().len() < u64::MAX ==> !old(self).issued().contains(d.path()),
            final(self).issued() == old(self).issued().insert(d.path()),
    ;
}

/// The sixty-two alphanumeric digit characters: the decimal digits,
/// then the lower-case letters, then the upper-case letters.
pub open spec fn b62_char(d: int) -> char {
    if d == 0 {
        '0'
    } else if d == 1 {
        '1'
    } else if d == 2 {
        '2'
    } else if d == 3 {
        '3'
    } else if d == 4 {
        '4'
    } else if d == 5 {
        '5'
    } else if d == 6 {
        '6'
    } else if d == 7 {
        '7'
    } else if d == 8 {
        '8'
    } else if d == 9 {
        '9'
    } else if d == 10 {
        'a'
    } else if d == 11 {
        'b'
    } else if d == 12 {
        'c'
    } else if d == 13 {
        'd'
    } else if d == 14 {
        'e'
    } else if d == 15 {
        'f'
    } else if d == 16 {
        'g'
    } else if d == 17 {
        'h'
    } else if d == 18 {
        'i'
    } else if d == 19 {
        'j'
    } else if d == 20 {
        'k'
    } else if d == 21 {
        'l'
    } else if d == 22 {
        'm'
    } else if d == 23 {
        'n'
    } else if d == 24 {
        'o'
    } else if d == 25 {
        'p'
    } else if d == 26 {
        'q'
    } else if d == 27 {
        'r'
    } else if d == 28 {
        's'
    } else if d == 29 {
        't'
    } else if d == 30 {
        'u'
    } else if d == 31 {
        'v'
    } else if d == 32 {
        'w'
    } else if d == 33 {
        'x'
    } else if d == 34 {
        'y'
    } else if d == 35 {
        'z'
    } else if d == 36 {
        'A'
    } else if d == 37 {
        'B'
    } else if d == 38 {
        'C'
    } else if d == 39 {
        'D'
    } else if d == 40 {
        'E'
    } else if d == 41 {
        'F'
    } else if d == 42 {
        'G'
    } else if d == 43 {
        'H'
    } else if d == 44 {
        'I'
    } else if d == 45 {
        'J'
    } else if d == 46 {
        'K'
    } else if d == 47 {
        'L'
    } else if d == 48 {
        'M'
    } else if d == 49 {
        'N'
    } else if d == 50 {
        'O'
    } else if d == 51 {
        'P'
    } else if d == 52 {
        'Q'
    } else if d == 53 {
        'R'
    } else if d == 54 {
        'S'
    } else if d == 55 {
        'T'
    } else if d == 56 {
        'U'
    } else if d == 57 {
        'V'
    } else if d == 58 {
        'W'
    } else if d == 59 {
        'X'
    } else if d == 60 {
        'Y'
    } else {
        'Z'
    }
}

/// The number's last `k` base sixty-two digits, zero padded, most
/// significant first: the alphanumeric tag shape of generated filenames.
pub open spec fn b62_chars(n: u64, k: nat) -> Seq<char>
    decreases k,
{
    if k == 0 {
        Seq::empty()
    } else {
        b62_chars(n / 62, (k - 1) as nat).push(b62_char((n % 62) as int))
    }
}

/// Sixty-two raised to the given power.
pub open spec fn pow62(k: nat) -> nat
    decreases k,
{
    if k == 0 {
        1
    } else {
        62 * pow62((k - 1) as nat)
    }
}

/// A width of twelve alphanumeric digits covers every machine-word value.
proof fn lemma_pow62_12_covers_u64()
    ensures
        u64::MAX < pow62(12),
{
    assert(pow62(0) == 1);
    assert(pow62(1) == 62);
    assert(pow62(2) == 3844);
    assert(pow62(3) == 238328);
    assert(pow62(4) == 14776336);
    assert(pow62(5) == 916132832);
    assert(pow62(6) == 56800235584);
    assert(pow62(7) == 3521614606208);
    assert(pow62(8) == 218340105584896);
    assert(pow62(9) == 13537086546263552);
    assert(pow62(10) == 839299365868340224);
    assert(pow62(11) == 52036560683837093888);
    assert(pow62(12) == 3226266762397899821056);
}

/// The padded digit run has exactly the requested width.
proof fn lemma_b62_chars_len(n: u64, k: nat)
    ensures
        b62_chars(n, k).len() == k,
    decreases k,
{
    if k > 0 {
        lemma_b62_chars_len(n / 62, (k - 1) as nat);
    }
}

/// Two numbers below the width's range with the same digit run are equal.
proof fn lemma_b62_chars_injective(n: u64, m: u64, k: nat)
    requires
        b62_chars(n, k) == b62_chars(m, k),
        (n as nat) < pow62(k),
        (m as nat) < pow62(k),
    ensures
        n == m,
    decreases k,
{
    if k == 0 {
    } else {
        let a = b62_chars(n / 62, (k - 1) as nat);
        let b = b62_chars(m / 62, (k - 1) as nat);
        lemma_b62_chars_len(n / 62, (k - 1) as nat);
        lemma_b62_chars_len(m / 62, (k - 1) as nat);
        assert(a.push(b62_char((n % 62) as int))[k - 1] == b62_char((n % 62) as int));
        assert(b.push(b62_char((m % 62) as int))[k - 1] == b62_char((m % 62) as int));
        assert(n % 62 == m % 62);
        assert forall|j: int| 0 <= j < a.len() implies a[j] == b[j] by {
            assert(a.push(b62_char((n % 62) as int))[j] == a[j]);
            assert(b.push(b62_char((m % 62) as int))[j] == b[j]);
        }
        assert(a =~= b);
        assert(62 * ((n as nat) / 62) <= n as nat);
        assert((n as nat) / 62 < pow62((k - 1) as nat));
        assert((m as nat) / 62 < pow62((k - 1) as nat));
        lemma_b62_chars_injective(n / 62, m / 62, (k - 1) as nat);
    }
}

/// Append the number's last `k` base sixty-two digits, zero padded, to the
/// string.
fn push_b62(s: &mut String, n: u64, k: u64)
    ensures
        final(s)@ == old(s)@ + b62_chars(n, k as nat),
    decreases k,
{
    if k == 0 {
        proof {
            assert(old(s)@ + b62_chars(n, 0) =~= old(s)@);
        }
        return ;
    }
    push_b62(s, n / 62, k - 1);
    let ghost mid = s@;
    match n % 62 {
        0 => s.append("0"),
        1 => s.append("1"),
        2 => s.append("2"),
        3 => s.append("3"),
        4 => s.append("4"),
        5 => s.append("5"),
        6 => s.append("6"),
        7 => s.append("7"),
        8 => s.append("8"),
        9 => s.append("9"),
        10 => s.append("a"),
        11 => s.append("b"),
        12 => s.append("c"),
        13 => s.append("d"),
        14 => s.append("e"),
        15 => s.append("f"),
        16 => s.append("g"),
        17 => s.append("h"),
        18 => s.append("i"),
        19 => s.append("j"),
        20 => s.append("k"),
        21 => s.append("l"),
        22 => s.append("m"),
        23 => s.append("n"),
        24 => s.append("o"),
        25 => s.append("p"),
        26 => s.append("q"),
        27 => s.append("r"),
        28 => s.append("s"),
        29 => s.append("t"),
        30 => s.append("u"),
        31 => s.append("v"),
        32 => s.append("w"),
        33 => s.append("x"),
        34 => s.append("y"),
        35 => s.append("z"),
        36 => s.append("A"),
        37 => s.append("B"),
        38 => s.append("C"),
        39 => s.append("D"),
        40 => s.append("E"),
        41 => s.append("F"),
        42 => s.append("G"),
        43 => s.append("H"),
        44 => s.append("I"),
        45 => s.append("J"),
        46 => s.append("K"),
        47 => s.append("L"),
        48 => s.append("M"),
        49 => s.append("N"),
        50 => s.append("O"),
        51 => s.append("P"),
        52 => s.append("Q"),
        53 => s.append("R"),
        54 => s.append("S"),
        55 => s.append("T"),
        56 => s.append("U"),
        57 => s.append("V"),
        58 => s.append("W"),
        59 => s.append("X"),
        60 => s.append("Y"),
        _ => s.append("Z"),
    }
    proof {
        reveal_strlit("0");
        reveal_strlit("1");
        reveal_strlit("2");
        reveal_strlit("3");
        reveal_strlit("4");
        reveal_strlit("5");
        reveal_strlit("6");
        reveal_strlit("7");
        reveal_strlit("8");
        reveal_strlit("9");
        reveal_strlit("a");
        reveal_strlit("b");
        reveal_strlit("c");
        reveal_strlit("d");
        reveal_strlit("e");
        reveal_strlit("f");
        reveal_strlit("g");
        reveal_strlit("h");
        reveal_strlit("i");
        reveal_strlit("j");
        reveal_strlit("k");
        reveal_strlit("l");
        reveal_strlit("m");
        reveal_strlit("n");
        reveal_strlit("o");
        reveal_strlit("p");
        reveal_strlit("q");
        reveal_strlit("r");
        reveal_strlit("s");
        reveal_strlit("t");
        reveal_strlit("u");
        reveal_strlit("v");
        reveal_strlit("w");
        reveal_strlit("x");
        reveal_strlit("y");
        reveal_strlit("z");
        reveal_strlit("A");
        reveal_strlit("B");
        reveal_strlit("C");
        reveal_strlit("D");
        reveal_strlit("E");
        reveal_strlit("F");
        reveal_strlit("G");
        reveal_strlit("H");
        reveal_strlit("I");
        reveal_strlit("J");
        reveal_strlit("K");
        reveal_strlit("L");
        reveal_strlit("M");
        reveal_strlit("N");
        reveal_strlit("O");
        reveal_strlit("P");
        reveal_strlit("Q");
        reveal_strlit("R");
        reveal_strlit("S");
        reveal_strlit("T");
        reveal_strlit("U");
        reveal_strlit("V");
        reveal_strlit("W");
        reveal_strlit("X");
        reveal_strlit("Y");
        reveal_strlit("Z");
        assert(s@ =~= old(s)@ + b62_chars(n, k as nat));
    }
}

/// The twelve-character alphanumeric tag of the given value: the shape of
/// generated destination filenames, applied to a freshly drawn value.
pub fn name_tag(n: u64) -> (s: String)
    ensures
        s@ == b62_chars(n, 12),
        s@.len() == 12,
{
    let mut s = String::new();
    push_b62(&mut s, n, 12);
    proof {
        lemma_b62_chars_len(n, 12);
        assert(Seq::<char>::empty() + b62_chars(n, 12) =~= b62_chars(n, 12));
    }
    s
}

/// A factory of in-memory spill targets, one distinct destination path
/// under the save directory per target: a slash and a twelve-character
/// alphanumeric tag — the drawn seed folded with a counter — are appended
/// to the directory's path.
pub struct MemSpillFactory {
    seed: u64,
    made: u64,
    issued_paths: Ghost<Set<Seq<char>>>,
}

impl MemSpillFactory {
    #[verifier::type_invariant]
    spec fn inv(self) -> bool {
        &&& self.issued_paths@.finite()
        &&& self.made as nat <= self.issued_paths@.len()
        &&& forall|q: Seq<char>| #[trigger]
            self.issued_paths@.contains(q) ==> q.len() >= 12 && exists|i: u64|
                i < self.made && q.skip(q.len() - 12) == b62_chars(self.seed ^ i, 12)
    }

    /// A factory folding the given drawn seed into its destination names.
    pub fn new(seed: u64) -> (f: MemSpillFactory)
        ensures
            f.issued().len() == 0,
            f.flawless(),
    {
        let f = MemSpillFactory { seed, made: 0, issued_paths: Ghost(Set::empty()) };
        proof {
            assert(f.issued_paths@.len() == 0);
        }
        f
    }
}

impl SpillFactory<MemTarget> for MemSpillFactory {
    open spec fn flawless(&self) -> bool {
        true
    }

    closed spec fn issued(&self) -> Set<Seq<char>> {
        self.issued_paths@
    }

    fn make_target(&mut self, dir: &String) -> (d: MemTarget) {
        proof {
            use_type_invariant(&*self);
        }
        let n = if self.made < u64::MAX {
            self.made
        } else {
            0
        };
        let tag = self.seed ^ n;
        let mut path = dir.clone();
        path.append("/");
        push_b62(&mut path, tag, 12);
        let ghost newp = path@;
        proof {
            reveal_strlit("/");
            lemma_b62_chars_len(tag, 12);
            lemma_pow62_12_covers_u64();
            assert(newp.take(dir@.len() as int) =~= dir@);
            assert(dir@.is_prefix_of(newp));
            assert(newp.skip(newp.len() - 12) =~= b62_chars(tag, 12));
            if self.made < u64::MAX && self.issued_paths@.contains(newp) {
                let i = choose|i: u64|
                    i < self.made && newp.skip(newp.len() - 12) == b62_chars(self.seed ^ i, 12);
                lemma_b62_chars_injective(self.seed ^ i, tag, 12);
                let ghost sd = self.seed;
                assert(i == n) by (bit_vector)
                    requires
                        sd ^ i == sd ^ n,
                ;
                assert(false);
            }
        }
        let ghost fresh = self.made < u64::MAX;
        let d = MemTarget::new(path);
        let new_made = if self.made < u64::MAX {
            self.made + 1
        } else {
            self.made
        };
        let ghost new_set = self.issued_paths@.insert(newp);
        let ghost sd0 = self.seed;
        let ghost f2 = MemSpillFactory { seed: sd0, made: new_made, issued_paths: Ghost(new_set) };
        proof {
            assert(f2.issued_paths@ == new_set);
            assert(new_set.finite());
            if old(self).issued_paths@.contains(newp) {
                assert(new_set =~= old(self).issued_paths@);
            } else {
                assert(new_set.len() == old(self).issued_paths@.len() + 1);
            }
            assert(new_made as nat <= new_set.len());
            assert forall|q: Seq<char>| #[trigger] f2.issued_paths@.contains(q) implies q.len()
                >= 12 && exists|i: u64|
                i < f2.made && q.skip(q.len() - 12) == b62_chars(f2.seed ^ i, 12) by {
                if q == newp {
                    assert(q.len() >= 12);
                    assert(newp.skip(newp.len() - 12) == b62_chars(f2.seed ^ n, 12));
                    assert(n < f2.made);
                    assert(exists|i: u64|
                        i < f2.made && q.skip(q.len() - 12) == b62_chars(f2.seed ^ i, 12));
                } else {
                    assert(old(self).issued_paths@.contains(q));
                    assert(q.len() >= 12);
                    let iw = choose|i: u64|
                        i < old(self).made && q.skip(q.len() - 12) == b62_chars(
                            old(self).seed ^ i,
                            12,
                        );
                    assert(iw < f2.made && q.skip(q.len() - 12) == b62_chars(f2.seed ^ iw, 12));
                    assert(exists|i: u64|
                        i < f2.made && q.skip(q.len() - 12) == b62_chars(f2.seed ^ i, 12));
                }
            }
            assert(f2.inv());
        }
        let updated = MemSpillFactory {
            seed: self.seed,
            made: new_made,
            issued_paths: Ghost(new_set),
        };
        proof {
            assert(updated == f2);
        }
        *self = updated;
        d
    }
}

} // verus!
