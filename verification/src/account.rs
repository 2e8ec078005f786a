//! Account snapshots: the balances of an account and the report on them.
use vstd::prelude::*;
use vstd::string::*;

use crate::clock::utc_from_millis;
use crate::report::Report;
use crate::text::{align_left, align_right, decimal_signed, repeated};
#[allow(unused_imports)]
use crate::clock::{has_calendar_text, utc_text, LAST_UTC_SECOND, UTC_LAYOUT};
#[allow(unused_imports)]
use crate::text::{decimal_text, left_aligned, right_aligned, signed_text};

verus! {

/// The balance of one asset, as the exchange reports it.
pub struct BinanceBalance {
    pub asset: String,
    pub free: String,
    pub locked: String,
}

/// An account, as the exchange reports it.
pub struct BinanceAccount {
    pub maker_commission: Option<i64>,
    pub taker_commission: Option<i64>,
    pub buyer_commission: Option<i64>,
    pub seller_commission: Option<i64>,
    pub can_trade: Option<bool>,
    pub can_withdraw: Option<bool>,
    pub can_deposit: Option<bool>,
    pub update_time: Option<u64>,
    pub balances: Vec<BinanceBalance>,
    pub permissions: Vec<String>,
}

/// The amounts of one balance.
pub struct BalanceFigure {
    /// Whether free and locked together are not zero.
    pub nonzero: bool,
    /// The formatted free amount.
    pub free: String,
    /// The formatted locked amount.
    pub locked: String,
}

/// How many of the first `n` balances are not zero.
pub open spec fn nonzero_count(figures: Seq<BalanceFigure>, n: nat) -> nat
    decreases n,
{
    if n == 0 {
        0
    } else {
        nonzero_count(figures, (n - 1) as nat) + if figures[n - 1].nonzero {
            1nat
        } else {
            0nat
        }
    }
}

/// The line on one balance.
pub open spec fn balance_line(asset: Seq<char>, free: Seq<char>, locked: Seq<char>) -> Seq<char> {
    "  "@ + left_aligned(asset, 8) + "  "@ + right_aligned(free, 20) + "  "@ + right_aligned(
        locked,
        20,
    )
}

/// The lines on those of the first `n` balances that are not zero.
pub open spec fn balance_lines(
    balances: Seq<BinanceBalance>,
    figures: Seq<BalanceFigure>,
    n: nat,
) -> Seq<Seq<char>>
    decreases n,
{
    if n == 0 {
        Seq::empty()
    } else {
        let before = balance_lines(balances, figures, (n - 1) as nat);
        if figures[n - 1].nonzero {
            before.push(
                balance_line(
                    balances[n - 1].asset@,
                    figures[n - 1].free@,
                    figures[n - 1].locked@,
                ),
            )
        } else {
            before
        }
    }
}

/// The first `n` texts with a comma and a space between them.
pub open spec fn joined(parts: Seq<String>, n: nat) -> Seq<char>
    decreases n,
{
    if n == 0 {
        Seq::empty()
    } else if n == 1 {
        parts[0]@
    } else {
        joined(parts, (n - 1) as nat) + ", "@ + parts[n - 1]@
    }
}

/// The line on the commission rates, where both are known.
pub open spec fn rate_lines(maker: Option<i64>, taker: Option<i64>) -> Seq<Seq<char>> {
    match (maker, taker) {
        (Some(m), Some(t)) => seq![
            "Commission rates: maker="@ + signed_text(m as int) + " bps  taker="@ + signed_text(
                t as int,
            ) + " bps"@,
        ],
        _ => Seq::empty(),
    }
}

/// The lines on the time of a snapshot, where it is known.
pub open spec fn snapshot_lines(time: Option<Seq<char>>) -> Seq<Seq<char>> {
    match time {
        Some(t) => seq![""@, "Snapshot time: "@ + t],
        None => Seq::empty(),
    }
}

/// The lines of an account report.
pub open spec fn account_report_lines(
    account: BinanceAccount,
    figures: Seq<BalanceFigure>,
    time: Option<Seq<char>>,
) -> Seq<Seq<char>> {
    seq![
        ""@,
        "--- Account Snapshot ---"@,
        "Permissions: "@ + joined(account.permissions@, account.permissions@.len()),
    ] + rate_lines(account.maker_commission, account.taker_commission) + seq![
        ""@,
        "Non-zero balances ("@ + decimal_text(nonzero_count(figures, figures.len())) + "):"@,
        balance_line("Asset"@, "Free"@, "Locked"@),
        "  "@ + Seq::new(52, |i: int| '─'),
    ] + balance_lines(account.balances@, figures, account.balances@.len()) + snapshot_lines(time)
}

fn join_texts(parts: &[String]) -> (text: String)
    ensures
        text@ == joined(parts@, parts@.len()),
{
    if parts.len() == 0 {
        return String::new();
    }
    let mut text = parts[0].clone();
    let mut i: usize = 1;
    while i < parts.len()
        invariant
            1 <= i <= parts@.len(),
            text@ == joined(parts@, i as nat),
        decreases parts@.len() - i,
    {
        text = text.concat(", ").concat(parts[i].as_str());
        i = i + 1;
    }
    text
}

fn balance_text(asset: &str, free: &str, locked: &str) -> (line: String)
    ensures
        line@ == balance_line(asset@, free@, locked@),
{
    "  ".to_owned().concat(align_left(asset, 8).as_str()).concat("  ").concat(
        align_right(free, 20).as_str(),
    ).concat("  ").concat(align_right(locked, 20).as_str())
}

fn count_nonzero(figures: &[BalanceFigure]) -> (count: usize)
    ensures
        count == nonzero_count(figures@, figures@.len()),
{
    let mut count: usize = 0;
    let mut i: usize = 0;
    while i < figures.len()
        invariant
            i <= figures@.len(),
            count == nonzero_count(figures@, i as nat),
            count <= i,
        decreases figures@.len() - i,
    {
        if figures[i].nonzero {
            count = count + 1;
        }
        i = i + 1;
    }
    count
}

fn balance_report(balances: &[BinanceBalance], figures: &[BalanceFigure]) -> (report: Report)
    requires
        balances@.len() == figures@.len(),
    ensures
        report@ == balance_lines(balances@, figures@, balances@.len()),
{
    let mut report = Report::new();
    let mut i: usize = 0;
    while i < balances.len()
        invariant
            i <= balances@.len(),
            balances@.len() == figures@.len(),
            report@ == balance_lines(balances@, figures@, i as nat),
        decreases balances@.len() - i,
    {
        if figures[i].nonzero {
            report.push(
                balance_text(
                    balances[i].asset.as_str(),
                    figures[i].free.as_str(),
                    figures[i].locked.as_str(),
                ),
            );
        }
        i = i + 1;
    }
    report
}

/// The view of an optional text.
pub open spec fn optional_text(text: Option<&str>) -> Option<Seq<char>> {
    match text {
        Some(t) => Some(t@),
        None => None,
    }
}

/// Reports on an account, given the text of its snapshot time.
pub fn account_report_at(
    account: &BinanceAccount,
    figures: &[BalanceFigure],
    time: Option<&str>,
) -> (report: Report)
    requires
        account.balances@.len() == figures@.len(),
    ensures
        report@ == account_report_lines(*account, figures@, optional_text(time)),
{
    let mut report = Report::new();
    report.line("");
    report.line("--- Account Snapshot ---");
    report.push(
        "Permissions: ".to_owned().concat(join_texts(account.permissions.as_slice()).as_str()),
    );
    if let (Some(m), Some(t)) = (account.maker_commission, account.taker_commission) {
        report.push(
            "Commission rates: maker=".to_owned().concat(decimal_signed(m).as_str()).concat(
                " bps  taker=",
            ).concat(decimal_signed(t).as_str()).concat(" bps"),
        );
    }
    report.line("");
    report.push(
        "Non-zero balances (".to_owned().concat(
            crate::text::decimal(count_nonzero(figures) as u64).as_str(),
        ).concat("):"),
    );
    report.push(balance_text("Asset", "Free", "Locked"));
    report.push("  ".to_owned().concat(repeated('─', 52).as_str()));
    let ghost head = report@;
    proof {
        assert(head =~= seq![
            ""@,
            "--- Account Snapshot ---"@,
            "Permissions: "@ + joined(account.permissions@, account.permissions@.len()),
        ] + rate_lines(account.maker_commission, account.taker_commission) + seq![
            ""@,
            "Non-zero balances ("@ + decimal_text(nonzero_count(figures@, figures@.len()))
                + "):"@,
            balance_line("Asset"@, "Free"@, "Locked"@),
            "  "@ + Seq::new(52, |i: int| '─'),
        ]);
    }
    report.append(balance_report(account.balances.as_slice(), figures));
    if let Some(t) = time {
        report.line("");
        report.push("Snapshot time: ".to_owned().concat(t));
    }
    proof {
        assert(report@ =~= head + balance_lines(account.balances@, figures@, account.balances@.len())
            + snapshot_lines(optional_text(time)));
    }
    report
}

/// The text of a snapshot time.
pub open spec fn snapshot_text(update_time: Option<u64>) -> Option<Seq<char>> {
    match update_time {
        Some(ms) => Some(utc_text(ms / 1000, UTC_LAYOUT@)),
        None => None,
    }
}

/// Reports on an account.
pub fn account_report(account: &BinanceAccount, figures: &[BalanceFigure]) -> (report: Report)
    requires
        account.balances@.len() == figures@.len(),
        account.update_time matches Some(ms) ==> ms / 1000 <= LAST_UTC_SECOND,
    ensures
        report@ == account_report_lines(
            *account,
            figures@,
            snapshot_text(account.update_time),
        ),
        account.update_time matches Some(ms) ==> has_calendar_text(ms / 1000),
{
    match account.update_time {
        Some(ms) => {
            let time = utc_from_millis(ms);
            account_report_at(account, figures, Some(time.as_str()))
        },
        None => account_report_at(account, figures, None),
    }
}

/// The report lists as many balances as its heading counts.
pub proof fn listed_balances_are_counted(
    balances: Seq<BinanceBalance>,
    figures: Seq<BalanceFigure>,
    n: nat,
)
    ensures
        balance_lines(balances, figures, n).len() == nonzero_count(figures, n),
    decreases n,
{
    if n > 0 {
        listed_balances_are_counted(balances, figures, (n - 1) as nat);
    }
}

/// The positions, among the first `n`, of the balances that are marked as not
/// zero.
spec fn marked(figures: Seq<BalanceFigure>, n: int) -> Set<int> {
    Set::new(|i: int| 0 <= i < n && figures[i].nonzero)
}

proof fn marked_are_counted(figures: Seq<BalanceFigure>, n: nat)
    requires
        n <= figures.len(),
    ensures
        marked(figures, n as int).finite(),
        marked(figures, n as int).len() == nonzero_count(figures, n),
    decreases n,
{
    if n == 0 {
        assert(marked(figures, 0) =~= Set::empty());
    } else {
        marked_are_counted(figures, (n - 1) as nat);
        let before = marked(figures, n - 1);
        if figures[n - 1].nonzero {
            assert(marked(figures, n as int) =~= before.insert(n - 1));
        } else {
            assert(marked(figures, n as int) =~= before);
        }
    }
}

/// The report lists every balance that is marked as not zero and no other, in the
/// order of the balances, with its asset, its free and its locked amount; and it
/// counts the positions that are marked.
pub proof fn marked_balances_are_listed(
    balances: Seq<BinanceBalance>,
    figures: Seq<BalanceFigure>,
    i: int,
)
    requires
        balances.len() == figures.len(),
    ensures
        balance_lines(balances, figures, balances.len()).len() == Set::new(
            |k: int| 0 <= k < figures.len() && figures[k].nonzero,
        ).len(),
        nonzero_count(figures, figures.len()) == Set::new(
            |k: int| 0 <= k < figures.len() && figures[k].nonzero,
        ).len(),
        0 <= i < balances.len() && figures[i].nonzero ==> ({
            let place = Set::new(|k: int| 0 <= k < i && figures[k].nonzero).len();
            &&& place < balance_lines(balances, figures, balances.len()).len()
            &&& balance_lines(balances, figures, balances.len())[place as int] == "  "@
                + left_aligned(balances[i].asset@, 8) + "  "@ + right_aligned(figures[i].free@, 20)
                + "  "@ + right_aligned(figures[i].locked@, 20)
        }),
{
    let n = balances.len();
    listed_balances_are_counted(balances, figures, n);
    marked_are_counted(figures, n);
    assert(marked(figures, n as int) =~= Set::new(
        |k: int| 0 <= k < figures.len() && figures[k].nonzero,
    ));
    if 0 <= i < n && figures[i].nonzero {
        marked_are_counted(figures, i as nat);
        assert(marked(figures, i) =~= Set::new(|k: int| 0 <= k < i && figures[k].nonzero));
        listed_balances_are_counted(balances, figures, i as nat);
        assert(balance_lines(balances, figures, (i + 1) as nat).len() == marked(figures, i).len()
            + 1);
        lines_stay_in_place(balances, figures, (i + 1) as nat, n, marked(figures, i).len() as int);
    }
}

proof fn lines_stay_in_place(
    balances: Seq<BinanceBalance>,
    figures: Seq<BalanceFigure>,
    m: nat,
    n: nat,
    place: int,
)
    requires
        m <= n,
        0 <= place < balance_lines(balances, figures, m).len(),
    ensures
        place < balance_lines(balances, figures, n).len(),
        balance_lines(balances, figures, n)[place] == balance_lines(balances, figures, m)[place],
    decreases n,
{
    if m < n {
        lines_stay_in_place(balances, figures, m, (n - 1) as nat, place);
    }
}

/// Permissions are listed with commas between them, each in its turn.
pub proof fn permissions_are_listed(parts: Seq<String>, part: String)
    ensures
        joined(Seq::empty(), 0) == Seq::<char>::empty(),
        joined(seq![part], 1) == part@,
        parts.len() > 0 ==> joined(parts.push(part), parts.len() + 1) == joined(parts, parts.len())
            + ", "@ + part@,
{
    if parts.len() > 0 {
        joined_prefix(parts, part, parts.len());
    }
}

proof fn joined_prefix(parts: Seq<String>, part: String, n: nat)
    requires
        n <= parts.len(),
    ensures
        joined(parts.push(part), n) == joined(parts, n),
    decreases n,
{
    if n > 1 {
        joined_prefix(parts, part, (n - 1) as nat);
    }
}

/// The account report shows the permissions, the commission rates where both are
/// known, the number of balances, the balances below their heading, and the time
/// of the snapshot where it is known, in this order.
pub proof fn account_report_shows_the_account(
    account: BinanceAccount,
    figures: Seq<BalanceFigure>,
    time: Option<Seq<char>>,
    k: int,
)
    ensures
        ({
            let lines = account_report_lines(account, figures, time);
            let listed = balance_lines(account.balances@, figures, account.balances@.len());
            let rates = account.maker_commission is Some && account.taker_commission is Some;
            let from: int = if rates {
                8
            } else {
                7
            };
            &&& lines[1] == "--- Account Snapshot ---"@
            &&& lines[2] == "Permissions: "@ + joined(
                account.permissions@,
                account.permissions@.len(),
            )
            &&& rates ==> lines[3] == "Commission rates: maker="@ + signed_text(
                account.maker_commission->0 as int,
            ) + " bps  taker="@ + signed_text(account.taker_commission->0 as int) + " bps"@
            &&& lines[0] == ""@ && lines[from - 4] == ""@
            &&& lines[from - 1] == "  "@ + Seq::new(52, |i: int| '─')
            &&& lines[from - 3] == "Non-zero balances ("@ + decimal_text(
                Set::new(|i: int| 0 <= i < figures.len() && figures[i].nonzero).len(),
            ) + "):"@
            &&& lines[from - 2] == "  "@ + left_aligned("Asset"@, 8) + "  "@ + right_aligned(
                "Free"@,
                20,
            ) + "  "@ + right_aligned("Locked"@, 20)
            &&& 0 <= k < listed.len() ==> lines[from + k] == listed[k]
            &&& lines.len() == from + listed.len() + if time is Some {
                2int
            } else {
                0int
            }
            &&& time is Some ==> lines.last() == "Snapshot time: "@ + time->0
        }),
{
    marked_are_counted(figures, figures.len());
    assert(marked(figures, figures.len() as int) =~= Set::new(
        |i: int| 0 <= i < figures.len() && figures[i].nonzero,
    ));
    let lines = account_report_lines(account, figures, time);
    let listed = balance_lines(account.balances@, figures, account.balances@.len());
    if 0 <= k < listed.len() {
        let rates = account.maker_commission is Some && account.taker_commission is Some;
        let from: int = if rates {
            8
        } else {
            7
        };
        assert(lines[from + k] == listed[k]);
    }
}

/// The snapshot time is shown to the second.
pub proof fn snapshot_time_is_shown(update_time: Option<u64>)
    ensures
        update_time is None ==> snapshot_text(update_time) is None,
        update_time matches Some(ms) ==> snapshot_text(update_time) == Some(
            utc_text((ms as int / 1000) as u64, "%Y-%m-%d %H:%M:%S UTC"@),
        ),
{
}

/// A given time is shown as it is.
pub proof fn given_time_is_kept(time: Option<&str>)
    ensures
        optional_text(time) is Some <==> time is Some,
        time matches Some(t) ==> optional_text(time) == Some(t@),
{
}

} // verus!
