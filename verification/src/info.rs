//! The info box of the editor: a help text that lists key bindings with their
//! descriptions, aligned in two columns, and the size of the box.

use vstd::prelude::*;
use vstd::string::StringExecFns;

use crate::layout::max;
use crate::text::{display_width, str_width, trim, trim_end, trim_start};

verus! {

/// A box of help text.
pub struct Info {
    /// Title of the box.
    pub title: &'static str,
    /// Text of the box, one line per entry, each ending in a newline.
    pub text: String,
    /// Width of the body.
    pub width: u16,
    /// Height of the body.
    pub height: u16,
}

/// The keys of an entry, each as it is displayed, and its description.
pub type KeyEntry = (Vec<String>, String);

pub open spec fn entries_view(body: Seq<KeyEntry>) -> Seq<(Seq<Seq<char>>, Seq<char>)> {
    body.map_values(|e: KeyEntry| (e.0@.map_values(|k: String| k@), e.1@))
}

/// Displayed width of a text, as a `u16` wrapped around.
pub open spec fn width_u16(t: Seq<char>) -> int {
    (display_width(t) as u16) as int
}

/// Sum over the keys of their width plus 2 (for the separator).
pub open spec fn keys_sum(keys: Seq<Seq<char>>) -> int
    decreases keys.len(),
{
    if keys.len() == 0 {
        0
    } else {
        keys_sum(keys.drop_last()) + width_u16(keys.last()) + 2
    }
}

/// Width of the keys of an entry written with ", " between them.
pub open spec fn keys_width(keys: Seq<Seq<char>>) -> int {
    keys_sum(keys) - 2
}

/// Width of the key column: the widest keys of any entry.
pub open spec fn keymaps_width(entries: Seq<(Seq<Seq<char>>, Seq<char>)>) -> int
    decreases entries.len(),
{
    if entries.len() == 0 {
        0
    } else {
        max(keymaps_width(entries.drop_last()), keys_width(entries.last().0))
    }
}

/// The keys of an entry with ", " between them.
pub open spec fn joined_keys(keys: Seq<Seq<char>>) -> Seq<char>
    decreases keys.len(),
{
    if keys.len() == 0 {
        Seq::empty()
    } else if keys.len() == 1 {
        keys[0]
    } else {
        joined_keys(keys.drop_last()) + seq![',', ' '] + keys.last()
    }
}

/// `n` spaces.
pub open spec fn spaces(n: int) -> Seq<char> {
    Seq::new(n as nat, |_i: int| ' ')
}

/// The description of an entry as it is shown.
pub open spec fn shown_description(desc: Seq<char>) -> Seq<char> {
    trim_end(trim_start(desc))
}

/// The line of an entry: a space, the keys, spaces up to the description
/// column, the description, a newline.
pub open spec fn entry_line(kw: int, entry: (Seq<Seq<char>>, Seq<char>)) -> Seq<char> {
    seq![' '] + joined_keys(entry.0) + spaces(kw - keys_width(entry.0) + 2) + shown_description(
        entry.1,
    ) + seq!['\n']
}

/// The lines of all entries.
pub open spec fn info_text(kw: int, entries: Seq<(Seq<Seq<char>>, Seq<char>)>) -> Seq<char>
    decreases entries.len(),
{
    if entries.len() == 0 {
        Seq::empty()
    } else {
        info_text(kw, entries.drop_last()) + entry_line(kw, entries.last())
    }
}

/// Width of the line of an entry with its padding.
pub open spec fn entry_width(kw: int, entry: (Seq<Seq<char>>, Seq<char>)) -> int {
    1 + kw + 2 + width_u16(shown_description(entry.1)) + 1
}

/// The widest entry line, 0 for none.
pub open spec fn info_width(kw: int, entries: Seq<(Seq<Seq<char>>, Seq<char>)>) -> int
    decreases entries.len(),
{
    if entries.len() == 0 {
        0
    } else {
        max(info_width(kw, entries.drop_last()), entry_width(kw, entries.last()))
    }
}

/// The entries can be laid out: there is one, each has a key, and no width
/// overflows a `u16`.
pub open spec fn key_info_allowed(entries: Seq<(Seq<Seq<char>>, Seq<char>)>) -> bool {
    let kw = keymaps_width(entries);
    &&& entries.len() > 0
    &&& forall|i: int| 0 <= i < entries.len() ==> (#[trigger] entries[i]).0.len() > 0
    &&& forall|i: int, j: int|
        0 <= i < entries.len() && 0 <= j < entries[i].0.len() ==> width_u16(
            #[trigger] entries[i].0[j],
        ) + 2 <= u16::MAX
    &&& forall|i: int| 0 <= i < entries.len() ==> keys_sum((#[trigger] entries[i]).0) <= u16::MAX
    &&& forall|i: int|
        0 <= i < entries.len() ==> kw - keys_width((#[trigger] entries[i]).0) + 2 <= u16::MAX
    &&& forall|i: int| 0 <= i < entries.len() ==> entry_width(kw, #[trigger] entries[i]) <= u16::MAX
}

proof fn lemma_keys_sum_step(keys: Seq<Seq<char>>, j: int)
    requires
        0 <= j < keys.len(),
    ensures
        keys_sum(keys.take(j + 1)) == keys_sum(keys.take(j)) + width_u16(keys[j]) + 2,
{
    assert(keys.take(j + 1).drop_last() =~= keys.take(j));
}

proof fn lemma_keys_sum_lower(keys: Seq<Seq<char>>, j: int)
    requires
        0 <= j <= keys.len(),
    ensures
        keys_sum(keys.take(j)) >= 2 * j,
    decreases j,
{
    if j > 0 {
        lemma_keys_sum_step(keys, j - 1);
        lemma_keys_sum_lower(keys, j - 1);
    }
}

pub proof fn lemma_keys_sum_mono(keys: Seq<Seq<char>>, j: int)
    requires
        0 <= j <= keys.len(),
    ensures
        keys_sum(keys.take(j)) <= keys_sum(keys),
        keys_sum(keys.take(j)) >= 2 * j,
    decreases keys.len() - j,
{
    lemma_keys_sum_lower(keys, j);
    if j < keys.len() {
        lemma_keys_sum_step(keys, j);
        lemma_keys_sum_mono(keys, j + 1);
    } else {
        assert(keys.take(j) =~= keys);
    }
}

proof fn lemma_joined_step(keys: Seq<Seq<char>>, j: int)
    requires
        1 <= j < keys.len(),
    ensures
        joined_keys(keys.take(j + 1)) == joined_keys(keys.take(j)) + seq![',', ' '] + keys[j],
{
    assert(keys.take(j + 1).drop_last() =~= keys.take(j));
}

pub proof fn lemma_keymaps_width(entries: Seq<(Seq<Seq<char>>, Seq<char>)>, i: int)
    requires
        0 <= i < entries.len(),
    ensures
        keymaps_width(entries) >= keys_width(entries[i].0),
    decreases entries.len(),
{
    if i < entries.len() - 1 {
        lemma_keymaps_width(entries.drop_last(), i);
    }
}

impl Info {
    /// The help box of key bindings: each entry becomes a line with its keys,
    /// separated by ", ", then its description, trimmed, at a column shared by
    /// all entries.
    pub fn key(title: &'static str, body: Vec<KeyEntry>) -> (info: Info)
        requires
            key_info_allowed(entries_view(body@)),
        ensures
            info.title == title,
            info.text@ == info_text(keymaps_width(entries_view(body@)), entries_view(body@)),
            info.width == info_width(keymaps_width(entries_view(body@)), entries_view(body@)),
            info.height == body@.len() as u16,
            forall|i: int|
                0 <= i < body@.len() ==> info.width >= 1 + keymaps_width(entries_view(body@)) + 2
                    + width_u16(shown_description((#[trigger] entries_view(body@)[i]).1)) + 1,
            exists|i: int|
                0 <= i < body@.len() && info.width == 1 + keymaps_width(entries_view(body@)) + 2
                    + width_u16(shown_description((#[trigger] entries_view(body@)[i]).1)) + 1,
    {
        let ghost entries = entries_view(body@);
        let ghost kw = keymaps_width(entries);
        let lpad: u16 = 1;
        let mpad: u16 = 2;
        let rpad: u16 = 1;
        let n = body.len();
        let mut keymaps: u16 = 0;
        let mut r: usize = 0;
        while r < n
            invariant
                n == body@.len() == entries.len(),
                entries == entries_view(body@),
                key_info_allowed(entries),
                r <= n,
                keymaps == keymaps_width(entries.take(r as int)),
                lpad == 1 && mpad == 2 && rpad == 1,
            decreases n - r,
        {
            let keys = &body[r].0;
            let ghost ks = entries[r as int].0;
            assert(ks == keys@.map_values(|k: String| k@));
            let mut sum: u16 = 0;
            let mut j: usize = 0;
            proof {
                lemma_keys_sum_mono(ks, ks.len() as int);
                assert(ks.take(0) =~= Seq::<Seq<char>>::empty());
            }
            while j < keys.len()
                invariant
                    j <= keys@.len() == ks.len(),
                    ks == keys@.map_values(|k: String| k@),
                    key_info_allowed(entries),
                    ks == entries[r as int].0,
                    0 <= r < entries.len(),
                    sum == keys_sum(ks.take(j as int)),
                decreases keys@.len() - j,
            {
                proof {
                    lemma_keys_sum_step(ks, j as int);
                    lemma_keys_sum_mono(ks, j + 1);
                    assert(entries[r as int].0[j as int] == keys@[j as int]@);
                }
                let w = str_width(keys[j].as_str()) as u16;
                sum = sum + (w + 2);
                j = j + 1;
            }
            proof {
                assert(ks.take(ks.len() as int) =~= ks);
                lemma_keys_sum_mono(ks, 1);
                assert(entries.take(r + 1).drop_last() =~= entries.take(r as int));
            }
            let row_width = sum - 2;
            if row_width > keymaps {
                keymaps = row_width;
            }
            r = r + 1;
        }
        proof {
            assert(entries.take(n as int) =~= entries);
        }
        let mut text = String::new();
        let mut width: u16 = 0;
        let height = n as u16;
        proof {
            reveal_strlit(" ");
            reveal_strlit(", ");
            reveal_strlit("\n");
        }
        r = 0;
        while r < n
            invariant
                n == body@.len() == entries.len(),
                entries == entries_view(body@),
                key_info_allowed(entries),
                keymaps == kw,
                kw == keymaps_width(entries),
                r <= n,
                lpad == 1 && mpad == 2 && rpad == 1,
                text@ == info_text(kw, entries.take(r as int)),
                width == info_width(kw, entries.take(r as int)),
                " "@ == seq![' '],
                ", "@ == seq![',', ' '],
                "\n"@ == seq!['\n'],
            decreases n - r,
        {
            let keys = &body[r].0;
            let desc = body[r].1.as_str();
            let ghost ks = entries[r as int].0;
            let ghost start = text@;
            assert(ks == keys@.map_values(|k: String| k@));
            assert(ks.len() > 0);
            proof {
                lemma_keymaps_width(entries, r as int);
                lemma_keys_sum_mono(ks, 1);
                lemma_keys_sum_step(ks, 0);
                assert(ks.take(0) =~= Seq::<Seq<char>>::empty());
                assert(ks.take(1) =~= seq![ks[0]]);
                lemma_keys_sum_mono(ks, ks.len() as int);
            }
            let first = keys[0].as_str();
            let mut left: u16 = keymaps - str_width(first) as u16;
            let mut p: u16 = 0;
            while p < lpad
                invariant
                    p <= lpad,
                    lpad == 1,
                    text@ == start + spaces(p as int),
                    " "@ == seq![' '],
                    lpad == 1 && mpad == 2 && rpad == 1,
                decreases lpad - p,
            {
                text.append(" ");
                assert(spaces(p + 1) =~= spaces(p as int) + seq![' ']);
                p = p + 1;
            }
            text.append(first);
            let mut j: usize = 1;
            while j < keys.len()
                invariant
                    1 <= j <= keys@.len() == ks.len(),
                    ks == keys@.map_values(|k: String| k@),
                    key_info_allowed(entries),
                    ks == entries[r as int].0,
                    0 <= r < entries.len(),
                    kw == keymaps_width(entries),
                    kw >= keys_width(ks),
                    text@ == start + seq![' '] + joined_keys(ks.take(j as int)),
                    left == kw - keys_width(ks.take(j as int)),
                    ", "@ == seq![',', ' '],
                    lpad == 1 && mpad == 2 && rpad == 1,
                decreases keys@.len() - j,
            {
                proof {
                    lemma_keys_sum_step(ks, j as int);
                    lemma_keys_sum_mono(ks, j + 1);
                    lemma_joined_step(ks, j as int);
                    assert(entries[r as int].0[j as int] == keys@[j as int]@);
                }
                text.append(", ");
                text.append(keys[j].as_str());
                left = left - (2 + str_width(keys[j].as_str()) as u16);
                j = j + 1;
            }
            proof {
                assert(ks.take(ks.len() as int) =~= ks);
            }
            let ghost mid = text@;
            let pad = left + mpad;
            let mut q: u16 = 0;
            while q < pad
                invariant
                    q <= pad,
                    text@ == mid + spaces(q as int),
                    " "@ == seq![' '],
                decreases pad - q,
            {
                text.append(" ");
                assert(spaces(q + 1) =~= spaces(q as int) + seq![' ']);
                q = q + 1;
            }
            let shown = trim(desc);
            let w = lpad + keymaps + mpad + (str_width(shown) as u16) + rpad;
            if w > width {
                width = w;
            }
            text.append(shown);
            text.append("\n");
            proof {
                assert(entries.take(r + 1).drop_last() =~= entries.take(r as int));
                assert(text@ =~= info_text(kw, entries.take(r as int)) + entry_line(kw, entries[r as int]));
            }
            r = r + 1;
        }
        proof {
            assert(entries.take(n as int) =~= entries);
            crate::laws::law_key_column_is_widest_keys(entries);
            let i = choose|i: int|
                0 <= i < entries.len() && keymaps_width(entries) == keys_sum((#[trigger] entries[i]).0) - 2;
            lemma_keys_sum_mono(entries[i].0, entries[i].0.len() as int);
            assert(entries[i].0.take(entries[i].0.len() as int) =~= entries[i].0);
            crate::laws::law_info_width_is_widest_line(kw, entries);
        }
        Info { title, text, width, height }
    }
}

proof fn lemma_keys_sum_term(keys: Seq<Seq<char>>, j: int)
    requires
        0 <= j < keys.len(),
    ensures
        keys_sum(keys) >= width_u16(keys[j]) + 2,
{
    lemma_keys_sum_step(keys, j);
    lemma_keys_sum_mono(keys, j + 1);
    lemma_keys_sum_mono(keys, j);
}

/// The sum of `keys_sum` for the keys of an entry, `None` where it exceeds a
/// `u16`.
fn entry_keys_sum(keys: &Vec<String>) -> (r: Option<u16>)
    ensures
        match r {
            Some(v) => v == keys_sum(keys@.map_values(|k: String| k@)),
            None => keys_sum(keys@.map_values(|k: String| k@)) > u16::MAX,
        },
{
    let ghost ks = keys@.map_values(|k: String| k@);
    let mut sum: u32 = 0;
    let mut j: usize = 0;
    proof {
        assert(ks.take(0) =~= Seq::<Seq<char>>::empty());
    }
    while j < keys.len()
        invariant
            j <= keys@.len() == ks.len(),
            ks == keys@.map_values(|k: String| k@),
            sum == keys_sum(ks.take(j as int)),
            sum <= u16::MAX,
        decreases keys@.len() - j,
    {
        proof {
            lemma_keys_sum_step(ks, j as int);
            assert(ks[j as int] == keys@[j as int]@);
        }
        let w = str_width(keys[j].as_str()) as u16;
        sum = sum + (w as u32 + 2);
        if sum > 65535 {
            proof {
                lemma_keys_sum_mono(ks, j + 1);
            }
            return None;
        }
        j = j + 1;
    }
    proof {
        assert(ks.take(ks.len() as int) =~= ks);
    }
    Some(sum as u16)
}

impl Info {
    /// Whether `Info::key` can lay out these entries.
    pub fn key_allowed(body: &Vec<KeyEntry>) -> (b: bool)
        ensures
            b == key_info_allowed(entries_view(body@)),
    {
        let ghost entries = entries_view(body@);
        let n = body.len();
        if n == 0 {
            return false;
        }
        let mut keymaps: u16 = 0;
        let mut r: usize = 0;
        while r < n
            invariant
                n == body@.len() == entries.len(),
                entries == entries_view(body@),
                r <= n,
                keymaps == keymaps_width(entries.take(r as int)),
                forall|i: int| 0 <= i < r ==> (#[trigger] entries[i]).0.len() > 0,
                forall|i: int| 0 <= i < r ==> keys_sum((#[trigger] entries[i]).0) <= u16::MAX,
            decreases n - r,
        {
            proof {
                assert(entries.take(r + 1).drop_last() =~= entries.take(r as int));
            }
            let keys = &body[r].0;
            assert(entries[r as int].0 == keys@.map_values(|k: String| k@));
            if keys.len() == 0 {
                return false;
            }
            match entry_keys_sum(keys) {
                Some(sum) => {
                    proof {
                        lemma_keys_sum_mono(entries[r as int].0, 1);
                        lemma_keys_sum_mono(
                            entries[r as int].0,
                            entries[r as int].0.len() as int,
                        );
                        assert(entries[r as int].0.take(entries[r as int].0.len() as int)
                            =~= entries[r as int].0);
                    }
                    if sum - 2 > keymaps {
                        keymaps = sum - 2;
                    }
                },
                None => {
                    return false;
                },
            }
            r = r + 1;
        }
        proof {
            assert(entries.take(n as int) =~= entries);
        }
        let ghost kw = keymaps_width(entries);
        r = 0;
        while r < n
            invariant
                n == body@.len() == entries.len(),
                entries == entries_view(body@),
                r <= n,
                keymaps == kw,
                kw == keymaps_width(entries),
                0 <= kw <= u16::MAX,
                forall|i: int| 0 <= i < n ==> (#[trigger] entries[i]).0.len() > 0,
                forall|i: int| 0 <= i < n ==> keys_sum((#[trigger] entries[i]).0) <= u16::MAX,
                forall|i: int|
                    0 <= i < r ==> kw - keys_width((#[trigger] entries[i]).0) + 2 <= u16::MAX,
                forall|i: int| 0 <= i < r ==> entry_width(kw, #[trigger] entries[i]) <= u16::MAX,
            decreases n - r,
        {
            let keys = &body[r].0;
            assert(entries[r as int].0 == keys@.map_values(|k: String| k@));
            proof {
                lemma_keys_sum_mono(entries[r as int].0, 1);
                lemma_keys_sum_mono(entries[r as int].0, entries[r as int].0.len() as int);
                assert(entries[r as int].0.take(entries[r as int].0.len() as int)
                    =~= entries[r as int].0);
            }
            let sum = match entry_keys_sum(keys) {
                Some(v) => v,
                None => {
                    return false;
                },
            };
            if (keymaps as u32) + 4 > 65535 + (sum as u32) {
                return false;
            }
            let shown = trim(body[r].1.as_str());
            let dw = str_width(shown) as u16;
            if (keymaps as u32) + (dw as u32) + 4 > 65535 {
                return false;
            }
            r = r + 1;
        }
        proof {
            assert forall|i: int, j: int|
                0 <= i < entries.len() && 0 <= j < entries[i].0.len() implies width_u16(
                #[trigger] entries[i].0[j],
            ) + 2 <= u16::MAX by {
                lemma_keys_sum_term(entries[i].0, j);
            }
        }
        true
    }

    /// `Info::key` where it can lay the entries out, `None` elsewhere.
    pub fn try_key(title: &'static str, body: Vec<KeyEntry>) -> (info: Option<Info>)
        ensures
            info is Some <==> key_info_allowed(entries_view(body@)),
            info matches Some(i) ==> {
                &&& i.title == title
                &&& i.text@ == info_text(keymaps_width(entries_view(body@)), entries_view(body@))
                &&& i.width == info_width(keymaps_width(entries_view(body@)), entries_view(body@))
                &&& i.height == body@.len() as u16
            },
    {
        if Info::key_allowed(&body) {
            Some(Info::key(title, body))
        } else {
            None
        }
    }
}

} // verus!
