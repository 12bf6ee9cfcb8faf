//! The module's own words, in English and in Ukrainian.
//!
//! Every text the screens show is looked up here by key. The two languages
//! hold the same keys in the same order, so a key that exists in one exists in
//! the other and no screen is left half translated.

use vstd::prelude::*;
use crate::text::{chars_of, same_chars, string_of};

verus! {

/// The keys, in catalog order.
pub open spec fn message_keys() -> Seq<&'static str> {
    seq![
        "module.name",
        "module.description",
        "ui.title",
        "ui.subtitle",
        "ui.scan",
        "ui.rescan",
        "ui.all_ok",
        "ui.attention",
        "ui.report",
        "ui.details",
        "error.no_powershell",
        "note.no_oem",
        "note.read_oem",
        "kind.windows",
        "kind.office",
        "kind.other",
        "col.product",
        "col.status",
        "col.channel",
        "col.key",
        "col.expires",
        "col.kms",
        "col.item",
        "col.value",
        "status.licensed",
        "status.unlicensed",
        "status.grace",
        "status.notification",
        "status.non_genuine",
        "report.title",
        "report.subtitle",
        "report.line_total",
        "report.line_bad",
        "report.by_status",
        "report.exported",
        "report.exported_hint",
        "report.failed",
        "report.nothing",
        "oem.title",
        "oem.authorizing",
        "oem.why",
        "oem.refused",
        "oem.unavailable",
        "oem.failed",
        "oem.none",
        "oem.item",
    ]
}

/// The English text of each key, in the order of `message_keys`.
pub open spec fn english_texts() -> Seq<&'static str> {
    seq![
        "Windows & Office licences",
        "How Windows and Office are activated on this machine.",
        "Windows & Office licences",
        "Reads how Windows and Office are activated on this machine, when you ask. Nothing is activated, changed or sent anywhere.",
        "Check licences",
        "Check again",
        "Everything found is licensed.",
        "{n} product(s) need attention.",
        "Make report",
        "Details",
        "PowerShell could not be run, so the licensing store was not read.",
        "The OEM key held in firmware could not be read without administrator rights.",
        "Read it as administrator",
        "Windows",
        "Office",
        "Other products",
        "Product",
        "Status",
        "Channel",
        "Key",
        "Expires in",
        "KMS host",
        "Item",
        "Value",
        "Licensed",
        "Not licensed",
        "Grace period",
        "Notification",
        "Not genuine",
        "Licence report",
        "{total} product(s), {bad} not properly licensed",
        "Products found: {n}",
        "Not properly licensed: {n}",
        "By status",
        "Report exported",
        "The file has been saved and opened in your default app.",
        "Couldn't build the report",
        "Nothing has been checked yet. Check licences first, then make a report.",
        "Reading the OEM key",
        "Waiting for you to allow it…",
        "Windows asks for administrator rights to read one field: the OEM key held in firmware. Only that one command runs with them; nothing else is elevated.",
        "You declined, so the OEM key was not read.",
        "Reading with administrator rights is not available here.",
        "The OEM key could not be read.",
        "There is no OEM key in this machine's firmware.",
        "OEM key in firmware",
    ]
}

/// The Ukrainian text of each key, in the order of `message_keys`.
pub open spec fn ukrainian_texts() -> Seq<&'static str> {
    seq![
        "Ліцензії Windows та Office",
        "Як активовано Windows та Office на цьому комп'ютері.",
        "Ліцензії Windows та Office",
        "Показує, як активовано Windows та Office на цьому комп'ютері, коли ви попросите. Нічого не активується, не змінюється і нікуди не надсилається.",
        "Перевірити ліцензії",
        "Перевірити ще раз",
        "Усе знайдене ліцензовано.",
        "Потребують уваги продуктів: {n}.",
        "Створити звіт",
        "Подробиці",
        "Не вдалося запустити PowerShell, тож сховище ліцензій не прочитано.",
        "OEM-ключ у мікропрограмі не вдалося прочитати без прав адміністратора.",
        "Прочитати як адміністратор",
        "Windows",
        "Office",
        "Інші продукти",
        "Продукт",
        "Стан",
        "Канал",
        "Ключ",
        "Залишилось",
        "Вузол KMS",
        "Елемент",
        "Значення",
        "Ліцензовано",
        "Не ліцензовано",
        "Пільговий період",
        "Сповіщення",
        "Неоригінальна",
        "Звіт про ліцензії",
        "Продуктів: {total}, без належної ліцензії: {bad}",
        "Знайдено продуктів: {n}",
        "Без належної ліцензії: {n}",
        "За станом",
        "Звіт експортовано",
        "Файл збережено й відкрито в програмі за замовчуванням.",
        "Не вдалося створити звіт",
        "Ще нічого не перевірено. Спершу перевірте ліцензії, потім створіть звіт.",
        "Читання OEM-ключа",
        "Чекаємо на ваш дозвіл…",
        "Windows просить права адміністратора, щоб прочитати одне поле: OEM-ключ у мікропрограмі. З ними виконується лише ця одна команда; більше нічого не отримує підвищених прав.",
        "Ви відмовили, тож OEM-ключ не прочитано.",
        "Читання з правами адміністратора тут недоступне.",
        "Не вдалося прочитати OEM-ключ.",
        "У мікропрограмі цього комп'ютера немає OEM-ключа.",
        "OEM-ключ у мікропрограмі",
    ]
}

/// The keys, as `message_keys` lists them.
fn key_table() -> (r: Vec<&'static str>)
    ensures
        r@ == message_keys(),
{
    let v = vec![
        "module.name",
        "module.description",
        "ui.title",
        "ui.subtitle",
        "ui.scan",
        "ui.rescan",
        "ui.all_ok",
        "ui.attention",
        "ui.report",
        "ui.details",
        "error.no_powershell",
        "note.no_oem",
        "note.read_oem",
        "kind.windows",
        "kind.office",
        "kind.other",
        "col.product",
        "col.status",
        "col.channel",
        "col.key",
        "col.expires",
        "col.kms",
        "col.item",
        "col.value",
        "status.licensed",
        "status.unlicensed",
        "status.grace",
        "status.notification",
        "status.non_genuine",
        "report.title",
        "report.subtitle",
        "report.line_total",
        "report.line_bad",
        "report.by_status",
        "report.exported",
        "report.exported_hint",
        "report.failed",
        "report.nothing",
        "oem.title",
        "oem.authorizing",
        "oem.why",
        "oem.refused",
        "oem.unavailable",
        "oem.failed",
        "oem.none",
        "oem.item",
    ];
    assert(v@ =~= message_keys());
    v
}

/// The English texts, as `english_texts` lists them.
fn english_table() -> (r: Vec<&'static str>)
    ensures
        r@ == english_texts(),
{
    let v = vec![
        "Windows & Office licences",
        "How Windows and Office are activated on this machine.",
        "Windows & Office licences",
        "Reads how Windows and Office are activated on this machine, when you ask. Nothing is activated, changed or sent anywhere.",
        "Check licences",
        "Check again",
        "Everything found is licensed.",
        "{n} product(s) need attention.",
        "Make report",
        "Details",
        "PowerShell could not be run, so the licensing store was not read.",
        "The OEM key held in firmware could not be read without administrator rights.",
        "Read it as administrator",
        "Windows",
        "Office",
        "Other products",
        "Product",
        "Status",
        "Channel",
        "Key",
        "Expires in",
        "KMS host",
        "Item",
        "Value",
        "Licensed",
        "Not licensed",
        "Grace period",
        "Notification",
        "Not genuine",
        "Licence report",
        "{total} product(s), {bad} not properly licensed",
        "Products found: {n}",
        "Not properly licensed: {n}",
        "By status",
        "Report exported",
        "The file has been saved and opened in your default app.",
        "Couldn't build the report",
        "Nothing has been checked yet. Check licences first, then make a report.",
        "Reading the OEM key",
        "Waiting for you to allow it…",
        "Windows asks for administrator rights to read one field: the OEM key held in firmware. Only that one command runs with them; nothing else is elevated.",
        "You declined, so the OEM key was not read.",
        "Reading with administrator rights is not available here.",
        "The OEM key could not be read.",
        "There is no OEM key in this machine's firmware.",
        "OEM key in firmware",
    ];
    assert(v@ =~= english_texts());
    v
}

/// The Ukrainian texts, as `ukrainian_texts` lists them.
fn ukrainian_table() -> (r: Vec<&'static str>)
    ensures
        r@ == ukrainian_texts(),
{
    let v = vec![
        "Ліцензії Windows та Office",
        "Як активовано Windows та Office на цьому комп'ютері.",
        "Ліцензії Windows та Office",
        "Показує, як активовано Windows та Office на цьому комп'ютері, коли ви попросите. Нічого не активується, не змінюється і нікуди не надсилається.",
        "Перевірити ліцензії",
        "Перевірити ще раз",
        "Усе знайдене ліцензовано.",
        "Потребують уваги продуктів: {n}.",
        "Створити звіт",
        "Подробиці",
        "Не вдалося запустити PowerShell, тож сховище ліцензій не прочитано.",
        "OEM-ключ у мікропрограмі не вдалося прочитати без прав адміністратора.",
        "Прочитати як адміністратор",
        "Windows",
        "Office",
        "Інші продукти",
        "Продукт",
        "Стан",
        "Канал",
        "Ключ",
        "Залишилось",
        "Вузол KMS",
        "Елемент",
        "Значення",
        "Ліцензовано",
        "Не ліцензовано",
        "Пільговий період",
        "Сповіщення",
        "Неоригінальна",
        "Звіт про ліцензії",
        "Продуктів: {total}, без належної ліцензії: {bad}",
        "Знайдено продуктів: {n}",
        "Без належної ліцензії: {n}",
        "За станом",
        "Звіт експортовано",
        "Файл збережено й відкрито в програмі за замовчуванням.",
        "Не вдалося створити звіт",
        "Ще нічого не перевірено. Спершу перевірте ліцензії, потім створіть звіт.",
        "Читання OEM-ключа",
        "Чекаємо на ваш дозвіл…",
        "Windows просить права адміністратора, щоб прочитати одне поле: OEM-ключ у мікропрограмі. З ними виконується лише ця одна команда; більше нічого не отримує підвищених прав.",
        "Ви відмовили, тож OEM-ключ не прочитано.",
        "Читання з правами адміністратора тут недоступне.",
        "Не вдалося прочитати OEM-ключ.",
        "У мікропрограмі цього комп'ютера немає OEM-ключа.",
        "OEM-ключ у мікропрограмі",
    ];
    assert(v@ =~= ukrainian_texts());
    v
}

/// Where `key` first stands in `keys`, if it stands there at all.
pub open spec fn position_of(keys: Seq<&'static str>, key: Seq<char>) -> Option<int>
    decreases keys.len(),
{
    if keys.len() == 0 {
        None
    } else if keys.last()@ == key {
        match position_of(keys.drop_last(), key) {
            Some(i) => Some(i),
            None => Some(keys.len() - 1),
        }
    } else {
        position_of(keys.drop_last(), key)
    }
}

/// Whether `lang` selects the Ukrainian texts. Any other language reads
/// English, which is the default and the fallback.
pub open spec fn is_ukrainian(lang: Seq<char>) -> bool {
    lang == "uk"@
}

/// The text `key` stands for in `lang`; a key the catalog does not hold is
/// shown as itself.
pub open spec fn translate(lang: Seq<char>, key: Seq<char>) -> Seq<char> {
    match position_of(message_keys(), key) {
        Some(i) => if is_ukrainian(lang) {
            ukrainian_texts()[i]@
        } else {
            english_texts()[i]@
        },
        None => key,
    }
}

/// The keys a language's catalog defines: the same list for English and for
/// Ukrainian, and none for a language the module does not speak.
pub open spec fn keys_of(lang: Seq<char>) -> Seq<&'static str> {
    if lang == "en"@ || lang == "uk"@ {
        message_keys()
    } else {
        Seq::empty()
    }
}

/// Ukrainian answers every key English does, and nothing more: the two
/// catalogs define the same keys, and each has a text for every one of them.
pub proof fn law_ukrainian_covers_every_english_key()
    ensures
        keys_of("uk"@) == keys_of("en"@),
        keys_of("en"@) == message_keys(),
        english_texts().len() == message_keys().len(),
        ukrainian_texts().len() == message_keys().len(),
{
}

proof fn lemma_position_step(keys: Seq<&'static str>, key: Seq<char>, i: int)
    requires
        0 <= i < keys.len(),
        position_of(keys.take(i), key) is None,
    ensures
        keys[i]@ == key ==> position_of(keys.take(i + 1), key) == Some(i),
        keys[i]@ != key ==> position_of(keys.take(i + 1), key) is None,
{
    assert(keys.take(i + 1).drop_last() =~= keys.take(i));
}

proof fn lemma_position_extends(keys: Seq<&'static str>, key: Seq<char>, k: int, n: int)
    requires
        0 <= k <= n <= keys.len(),
        position_of(keys.take(k), key) is Some,
    ensures
        position_of(keys.take(n), key) == position_of(keys.take(k), key),
    decreases n - k,
{
    if n > k {
        lemma_position_extends(keys, key, k, n - 1);
        assert(keys.take(n).drop_last() =~= keys.take(n - 1));
    }
}

/// A position that `position_of` finds lies within the keys.
pub proof fn lemma_position_in_bounds(keys: Seq<&'static str>, key: Seq<char>)
    ensures
        position_of(keys, key) matches Some(i) ==> 0 <= i < keys.len() && keys[i]@ == key,
    decreases keys.len(),
{
    if keys.len() > 0 {
        lemma_position_in_bounds(keys.drop_last(), key);
    }
}

/// Where `key` stands among the catalog's keys.
fn find_key(key: &str) -> (r: Option<usize>)
    ensures
        r matches Some(i) ==> position_of(message_keys(), key@) == Some(i as int),
        r is None ==> position_of(message_keys(), key@) is None,
{
    let keys = key_table();
    let wanted = chars_of(key);
    let mut i: usize = 0;
    assert(message_keys().take(0) =~= Seq::<&'static str>::empty());
    while i < keys.len()
        invariant
            keys@ == message_keys(),
            wanted@ == key@,
            i <= keys@.len(),
            position_of(message_keys().take(i as int), key@) is None,
        decreases keys@.len() - i,
    {
        proof {
            lemma_position_step(message_keys(), key@, i as int);
        }
        let candidate = chars_of(keys[i]);
        if same_chars(candidate.as_slice(), wanted.as_slice()) {
            proof {
                lemma_position_extends(message_keys(), key@, i + 1, message_keys().len() as int);
                assert(message_keys().take(message_keys().len() as int) =~= message_keys());
            }
            return Some(i);
        }
        i = i + 1;
    }
    assert(message_keys().take(keys@.len() as int) =~= message_keys());
    None
}

/// The text `key` stands for in `lang`.
pub fn tr(lang: &str, key: &str) -> (r: String)
    ensures
        r@ == translate(lang@, key@),
{
    match find_key(key) {
        Some(i) => {
            proof {
                lemma_position_in_bounds(message_keys(), key@);
                assert(english_texts().len() == message_keys().len());
                assert(ukrainian_texts().len() == message_keys().len());
            }
            let lc = chars_of(lang);
            let uk = chars_of("uk");
            let texts = if same_chars(lc.as_slice(), uk.as_slice()) {
                ukrainian_table()
            } else {
                english_table()
            };
            let t = chars_of(texts[i]);
            string_of(t.as_slice())
        },
        None => {
            let k = chars_of(key);
            string_of(k.as_slice())
        },
    }
}

/// The keys `lang`'s catalog defines.
pub fn keys(lang: &str) -> (r: Vec<&'static str>)
    ensures
        r@ == keys_of(lang@),
{
    let lc = chars_of(lang);
    let en = chars_of("en");
    let uk = chars_of("uk");
    if same_chars(lc.as_slice(), en.as_slice()) || same_chars(lc.as_slice(), uk.as_slice()) {
        key_table()
    } else {
        Vec::new()
    }
}

} // verus!
