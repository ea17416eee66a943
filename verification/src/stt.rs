//! Finding the files of a recognition model.

use crate::text::{contains, ends_with, has_part, occurs_at, texts};
use crate::phrase::{lower_list, lower_texts};
use vstd::prelude::*;

verus! {

/// A file name, in lower case, is that of a network for the key.
pub open spec fn fits(name: Seq<char>, key: Seq<char>) -> bool {
    &&& ".onnx"@.len() <= name.len()
    &&& occurs_at(name, ".onnx"@, name.len() - ".onnx"@.len())
    &&& has_part(name, key)
}

/// The network is a small one, with 8-bit numbers.
pub open spec fn is_int8(name: Seq<char>) -> bool {
    has_part(name, "int8"@)
}

/// The place of the first name that fits the key, or of the first small one if
/// `small`.
pub open spec fn first_fit(names: Seq<Seq<char>>, key: Seq<char>, small: bool, i: int) -> bool {
    &&& 0 <= i < names.len()
    &&& fits(names[i], key)
    &&& small ==> is_int8(names[i])
    &&& forall|k: int|
        0 <= k < i ==> !(fits(#[trigger] names[k], key) && (small ==> is_int8(names[k])))
}

/// Some name fits the key, or some small one.
pub open spec fn any_fit(names: Seq<Seq<char>>, key: Seq<char>, small: bool) -> bool {
    exists|k: int|
        0 <= k < names.len() && fits(#[trigger] names[k], key) && (small ==> is_int8(names[k]))
}

/// The file chosen for a key: the first small one if there is any, else the
/// first that fits.
pub open spec fn is_picked(names: Seq<Seq<char>>, key: Seq<char>, r: Option<usize>) -> bool {
    match r {
        Some(i) => first_fit(names, key, any_fit(names, key, true), i as int),
        None => !any_fit(names, key, false),
    }
}

/// Chooses the file for a key among names in lower case.
pub fn pick_lowered(names: &Vec<String>, key: &str) -> (r: Option<usize>)
    ensures
        is_picked(texts(names@), key@, r),
{
    let ghost all = texts(names@);
    let mut best: Option<usize> = None;
    let mut i: usize = 0;
    while i < names.len()
        invariant
            i <= names@.len(),
            all == texts(names@),
            match best {
                Some(b) => b < i && fits(all[b as int], key@) && (if is_int8(all[b as int]) {
                    forall|k: int|
                        0 <= k < b ==> !(fits(#[trigger] all[k], key@) && is_int8(all[k]))
                } else {
                    &&& forall|k: int| 0 <= k < b ==> !fits(#[trigger] all[k], key@)
                    &&& forall|k: int|
                        0 <= k < i ==> !(fits(#[trigger] all[k], key@) && is_int8(all[k]))
                }),
                None => forall|k: int| 0 <= k < i ==> !fits(#[trigger] all[k], key@),
            },
        decreases names@.len() - i,
    {
        assert(all[i as int] == names@[i as int]@);
        if ends_with(&names[i], ".onnx") && contains(&names[i], key) {
            let small = contains(&names[i], "int8");
            match best {
                None => {
                    best = Some(i);
                },
                Some(b) => {
                    assert(all[b as int] == names@[b as int]@);
                    if small && !contains(&names[b], "int8") {
                        best = Some(i);
                    }
                },
            }
        }
        i += 1;
    }
    best
}

/// Chooses the file for a key (`encoder`, `decoder` or `joiner`) among the names
/// in the model's folder, in any case.
pub fn pick(names: &Vec<String>, key: &str) -> (r: Option<usize>)
    ensures
        is_picked(lower_texts(texts(names@)), key@, r),
{
    let low = lower_list(names.as_slice());
    pick_lowered(&low, key)
}

/// What is said where no file fits a key.
pub open spec fn no_file(key: Seq<char>, dir: Seq<char>) -> Seq<char> {
    "В модели не найден файл *"@ + key + "*.onnx: "@ + dir
}

/// What is said where no file fits a key.
pub fn missing_file(key: &str, dir: &str) -> (r: String)
    ensures
        r@ == no_file(key@, dir@),
{
    let mut r = "В модели не найден файл *".to_owned();
    r.append(key);
    r.append("*.onnx: ");
    r.append(dir);
    r
}

/// What is wrong with a model's folder, if anything: the folder, one of the three
/// files or the list of tokens is missing. `names` are in lower case.
pub open spec fn fault(
    dir: Seq<char>,
    is_dir: bool,
    names: Seq<Seq<char>>,
    has_tokens: bool,
) -> Option<Seq<char>> {
    if !is_dir {
        Some("Папка модели не найдена: "@ + dir)
    } else if !any_fit(names, "encoder"@, false) {
        Some(no_file("encoder"@, dir))
    } else if !any_fit(names, "decoder"@, false) {
        Some(no_file("decoder"@, dir))
    } else if !any_fit(names, "joiner"@, false) {
        Some(no_file("joiner"@, dir))
    } else if !has_tokens {
        Some("В модели нет tokens.txt: "@ + dir)
    } else {
        None
    }
}

/// The encoder, the decoder and the joiner among the names in a model's folder,
/// or what is wrong with the folder.
pub fn model_files(dir: &str, is_dir: bool, names: &Vec<String>, has_tokens: bool) -> (r: Result<
    (usize, usize, usize),
    String,
>)
    ensures
        ({
            let low = lower_texts(texts(names@));
            match r {
                Ok((e, d, j)) => {
                    &&& fault(dir@, is_dir, low, has_tokens) is None
                    &&& is_picked(low, "encoder"@, Some(e))
                    &&& is_picked(low, "decoder"@, Some(d))
                    &&& is_picked(low, "joiner"@, Some(j))
                },
                Err(why) => fault(dir@, is_dir, low, has_tokens) == Some(why@),
            }
        }),
{
    if !is_dir {
        let mut why = "Папка модели не найдена: ".to_owned();
        why.append(dir);
        return Err(why);
    }
    let ghost low = lower_texts(texts(names@));
    let enc = pick(names, "encoder");
    let dec = pick(names, "decoder");
    let join = pick(names, "joiner");
    proof {
        law_small_preferred(low, "encoder"@, enc);
        law_small_preferred(low, "decoder"@, dec);
        law_small_preferred(low, "joiner"@, join);
    }
    let e: usize = match enc {
        Some(i) => i,
        None => return Err(missing_file("encoder", dir)),
    };
    let d: usize = match dec {
        Some(i) => i,
        None => return Err(missing_file("decoder", dir)),
    };
    let j: usize = match join {
        Some(i) => i,
        None => return Err(missing_file("joiner", dir)),
    };
    if !has_tokens {
        let mut why = "В модели нет tokens.txt: ".to_owned();
        why.append(dir);
        return Err(why);
    }
    Ok((e, d, j))
}

/// Some file is chosen exactly if one fits, and a small one exactly if a small
/// one fits.
pub proof fn law_small_preferred(names: Seq<Seq<char>>, key: Seq<char>, r: Option<usize>)
    requires
        is_picked(names, key, r),
    ensures
        r is Some <==> any_fit(names, key, false),
        r matches Some(i) ==> (is_int8(names[i as int]) <==> any_fit(names, key, true)),
{
    if let Some(i) = r {
        assert(fits(names[i as int], key));
    } else if any_fit(names, key, true) {
        let k = choose|k: int|
            0 <= k < names.len() && fits(#[trigger] names[k], key) && is_int8(names[k]);
        assert(fits(names[k], key));
    }
}

} // verus!
