//! Registering a machine: the form with its group, row, column and image,
//! edited with the arrow keys.

use vstd::prelude::*;
use crate::input::Key;
use crate::error::Error;
use vstd::arithmetic::div_mod::lemma_fundamental_div_mod_converse;

verus! {

/// Where a machine stands and which image it gets.
#[derive(Debug)]
pub struct Station {
    pub group: String,
    pub row: u8,
    pub col: u8,
    pub image: String,
}

/// The form: the station being edited and the selected line (0 group,
/// 1 row, 2 column, 3 image).
pub struct RegisterForm {
    pub station: Station,
    pub selected: usize,
}

/// What a key did to the form.
#[derive(Clone, Copy, Debug, PartialEq, Eq, Structural)]
pub enum FormStep {
    /// Keep editing.
    Continue,
    /// Enter: the registration is to be sent.
    Submit,
}

/// Index of the first occurrence of `x` in `s` at or after `i`; -1 when none.
pub open spec fn pos_from(s: Seq<Seq<char>>, x: Seq<char>, i: int) -> int
    decreases s.len() - i,
{
    if i >= s.len() || i < 0 {
        -1
    } else if s[i] == x {
        i
    } else {
        pos_from(s, x, i + 1)
    }
}

/// Index of the last occurrence of `x` in `s` below `i`; -1 when none.
pub open spec fn last_pos_below(s: Seq<Seq<char>>, x: Seq<char>, i: int) -> int
    decreases i,
{
    if i <= 0 {
        -1
    } else if i - 1 < s.len() && s[i - 1] == x {
        i - 1
    } else {
        last_pos_below(s, x, i - 1)
    }
}

/// The texts of a list of strings.
pub open spec fn texts(v: Seq<String>) -> Seq<Seq<char>> {
    v.map_values(|s: String| s@)
}

proof fn lemma_pos_from_found(s: Seq<Seq<char>>, x: Seq<char>, i: int, k: int)
    requires
        0 <= i <= k < s.len(),
        s[k] == x,
    ensures
        i <= pos_from(s, x, i) <= k,
        s[pos_from(s, x, i)] == x,
    decreases k - i,
{
    if s[i] != x {
        lemma_pos_from_found(s, x, i + 1, k);
    }
}

proof fn lemma_last_pos_found(s: Seq<Seq<char>>, x: Seq<char>, i: int, k: int)
    requires
        0 <= k < i <= s.len(),
        s[k] == x,
    ensures
        k <= last_pos_below(s, x, i) < i,
        s[last_pos_below(s, x, i)] == x,
    decreases i - k,
{
    if s[i - 1] != x {
        lemma_last_pos_found(s, x, i - 1, k);
    }
}

fn find_first(v: &Vec<String>, x: &String) -> (r: Option<usize>)
    ensures
        r matches Some(i) ==> i as int == pos_from(texts(v@), x@, 0) && i < v@.len() && v@[i as int]@ == x@,
        r is None ==> pos_from(texts(v@), x@, 0) == -1,
{
    let mut i: usize = 0;
    while i < v.len()
        invariant
            i <= v@.len(),
            pos_from(texts(v@), x@, 0) == pos_from(texts(v@), x@, i as int),
        decreases v@.len() - i,
    {
        if v[i] == *x {
            return Some(i);
        }
        i = i + 1;
    }
    None
}

fn find_last(v: &Vec<String>, x: &String) -> (r: Option<usize>)
    ensures
        r matches Some(i) ==> i as int == last_pos_below(texts(v@), x@, v@.len() as int) && i < v@.len(),
        r is None ==> last_pos_below(texts(v@), x@, v@.len() as int) == -1,
{
    let mut i: usize = v.len();
    while i > 0
        invariant
            i <= v@.len(),
            last_pos_below(texts(v@), x@, v@.len() as int) == last_pos_below(texts(v@), x@, i as int),
        decreases i,
    {
        if v[i - 1] == *x {
            return Some(i - 1);
        }
        i = i - 1;
    }
    None
}

proof fn lemma_prev_index(i: int, n: int)
    requires
        0 <= i < n,
    ensures
        (i + n - 1) % n == (if i == 0 { n - 1 } else { i - 1 }),
{
    if i == 0 {
        lemma_fundamental_div_mod_converse(i + n - 1, n, 0, n - 1);
    } else {
        lemma_fundamental_div_mod_converse(i + n - 1, n, 1, i - 1);
    }
}

impl RegisterForm {
    /// An empty form with the group line selected.
    pub fn new() -> (r: RegisterForm)
        ensures
            r.station.group@ == Seq::<char>::empty(),
            r.station.image@ == Seq::<char>::empty(),
            r.station.row == 0 && r.station.col == 0,
            r.selected == 0,
    {
        RegisterForm {
            station: Station { group: String::new(), row: 0, col: 0, image: String::new() },
            selected: 0,
        }
    }

    /// Applies a key: Down and Up move the selection (staying on the four
    /// lines); Left and Right cycle the group through `groups` or the image
    /// through `images` (backwards and forwards), or step the row or column
    /// (wrapping); Enter submits. An image that is not among `images` is an
    /// error.
    pub fn handle_key(&mut self, key: Key, groups: &Vec<String>, images: &Vec<String>) -> (r: Result<FormStep, Error>)
        requires
            old(self).selected <= 3,
            old(self).selected == 0 && (key == Key::Left || key == Key::Right) ==> texts(groups@).contains(
                old(self).station.group@,
            ),
        ensures
            final(self).selected <= 3,
            key == Key::Enter ==> r == Ok::<FormStep, Error>(FormStep::Submit) && *final(self) == *old(self),
            key == Key::Down ==> r == Ok::<FormStep, Error>(FormStep::Continue) && final(self).station == old(
                self,
            ).station && final(self).selected == (if old(self).selected < 3 {
                old(self).selected + 1
            } else {
                3
            }),
            key == Key::Up ==> r == Ok::<FormStep, Error>(FormStep::Continue) && final(self).station == old(
                self,
            ).station && final(self).selected == (if old(self).selected > 0 {
                old(self).selected - 1
            } else {
                0
            }),
            key == Key::Left || key == Key::Right ==> final(self).selected == old(self).selected,
            (key == Key::Left || key == Key::Right) && old(self).selected != 3 ==> r == Ok::<FormStep, Error>(
                FormStep::Continue,
            ),
            (key == Key::Left || key == Key::Right) && old(self).selected != 0 ==> final(self).station.group
                == old(self).station.group,
            (key == Key::Left || key == Key::Right) && old(self).selected != 1 ==> final(self).station.row == old(
                self,
            ).station.row,
            (key == Key::Left || key == Key::Right) && old(self).selected != 2 ==> final(self).station.col == old(
                self,
            ).station.col,
            (key == Key::Left || key == Key::Right) && old(self).selected != 3 ==> final(self).station.image
                == old(self).station.image,
            (key == Key::Left || key == Key::Right) && old(self).selected == 1 ==> final(self).station.row == (if key
                == Key::Left {
                (old(self).station.row + 255) % 256
            } else {
                (old(self).station.row + 1) % 256
            }),
            (key == Key::Left || key == Key::Right) && old(self).selected == 2 ==> final(self).station.col == (if key
                == Key::Left {
                (old(self).station.col + 255) % 256
            } else {
                (old(self).station.col + 1) % 256
            }),
            (key == Key::Left || key == Key::Right) && old(self).selected == 0 ==> {
                let g = texts(groups@);
                let n = g.len() as int;
                final(self).station.group@ == (if key == Key::Right {
                    g[(pos_from(g, old(self).station.group@, 0) + 1) % n]
                } else {
                    g[(last_pos_below(g, old(self).station.group@, n) + n - 1) % n]
                })
            },
            (key == Key::Left || key == Key::Right) && old(self).selected == 3 ==> {
                let im = texts(images@);
                let n = im.len() as int;
                let p = pos_from(im, old(self).station.image@, 0);
                &&& (r is Err <==> p == -1)
                &&& r matches Err(e) ==> e.0@ == "Invalid image name"@ && final(self).station.image == old(
                    self,
                ).station.image
                &&& p != -1 ==> r == Ok::<FormStep, Error>(FormStep::Continue) && final(self).station.image@ == (
                if key == Key::Right {
                    im[(p + 1) % n]
                } else {
                    im[(p + n - 1) % n]
                })
            },
    {
        match key {
            Key::Enter => Ok(FormStep::Submit),
            Key::Down => {
                self.selected = if self.selected < 3 { self.selected + 1 } else { 3 };
                Ok(FormStep::Continue)
            },
            Key::Up => {
                self.selected = if self.selected > 0 { self.selected - 1 } else { 0 };
                Ok(FormStep::Continue)
            },
            Key::Left | Key::Right => {
                let right = key == Key::Right;
                if self.selected == 0 {
                    proof {
                        let g = texts(groups@);
                        let k = choose|k: int| 0 <= k < g.len() && g[k] == self.station.group@;
                        lemma_pos_from_found(g, self.station.group@, 0, k);
                        lemma_last_pos_found(g, self.station.group@, g.len() as int, k);
                    }
                    let n = groups.len();
                    if right {
                        let i = match find_first(groups, &self.station.group) {
                            Some(i) => i,
                            None => 0,
                        };
                        self.station.group = groups[(i + 1) % n].clone();
                    } else {
                        let i = match find_last(groups, &self.station.group) {
                            Some(i) => i,
                            None => 0,
                        };
                        let j = if i == 0 { n - 1 } else { i - 1 };
                        proof {
                            lemma_prev_index(i as int, n as int);
                        }
                        self.station.group = groups[j].clone();
                    }
                    Ok(FormStep::Continue)
                } else if self.selected == 1 {
                    self.station.row = if right { self.station.row.wrapping_add(1) } else { self.station.row.wrapping_sub(1) };
                    Ok(FormStep::Continue)
                } else if self.selected == 2 {
                    self.station.col = if right { self.station.col.wrapping_add(1) } else { self.station.col.wrapping_sub(1) };
                    Ok(FormStep::Continue)
                } else {
                    let n = images.len();
                    match find_first(images, &self.station.image) {
                        None => Err(Error::msg(String::from_str("Invalid image name"))),
                        Some(p) => {
                            let j = if right { (p + 1) % n } else if p == 0 { n - 1 } else { p - 1 };
                            proof {
                                lemma_prev_index(p as int, n as int);
                            }
                            self.station.image = images[j].clone();
                            Ok(FormStep::Continue)
                        },
                    }
                }
            },
        }
    }
}

} // verus!
