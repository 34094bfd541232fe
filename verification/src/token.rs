use vstd::prelude::*;
use vstd::string::StringExecFns;

verus! {

/// The outcome tokens that the simulation trades: the "Up" and "Down"
/// sides of four crypto-price markets.
#[derive(Debug, Clone, Copy, PartialEq, Eq, Structural)]
pub enum TokenType {
    BtcUp,
    BtcDown,
    EthUp,
    EthDown,
    SolanaUp,
    SolanaDown,
    XrpUp,
    XrpDown,
}

impl TokenType {
    /// The token pays out when the market resolves "up".
    pub open spec fn pays_on_up(self) -> bool {
        match self {
            TokenType::BtcUp | TokenType::EthUp | TokenType::SolanaUp | TokenType::XrpUp => true,
            _ => false,
        }
    }

    pub open spec fn market_text(self) -> Seq<char> {
        match self {
            TokenType::BtcUp | TokenType::BtcDown => "BTC"@,
            TokenType::EthUp | TokenType::EthDown => "ETH"@,
            TokenType::SolanaUp | TokenType::SolanaDown => "SOL"@,
            TokenType::XrpUp | TokenType::XrpDown => "XRP"@,
        }
    }

    pub open spec fn direction_text(self) -> Seq<char> {
        if self.pays_on_up() { "Up"@ } else { "Down"@ }
    }

    pub open spec fn display_text(self) -> Seq<char> {
        self.market_text() + " "@ + self.direction_text()
    }

    /// True for the "Up" tokens.
    pub fn is_up(&self) -> (r: bool)
        ensures
            r == self.pays_on_up(),
    {
        match self {
            TokenType::BtcUp | TokenType::EthUp | TokenType::SolanaUp | TokenType::XrpUp => true,
            _ => false,
        }
    }

    /// The underlying market: "BTC", "ETH", "SOL" or "XRP".
    pub fn market_name(&self) -> (r: &'static str)
        ensures
            r@ == self.market_text(),
    {
        match self {
            TokenType::BtcUp | TokenType::BtcDown => "BTC",
            TokenType::EthUp | TokenType::EthDown => "ETH",
            TokenType::SolanaUp | TokenType::SolanaDown => "SOL",
            TokenType::XrpUp | TokenType::XrpDown => "XRP",
        }
    }

    /// "Up" or "Down".
    pub fn direction_label(&self) -> (r: &'static str)
        ensures
            r@ == self.direction_text(),
    {
        if self.is_up() {
            "Up"
        } else {
            "Down"
        }
    }

    /// The market and direction, such as "BTC Up".
    pub fn display_name(&self) -> (r: String)
        ensures
            r@ == self.display_text(),
    {
        let mut s = String::from_str(self.market_name());
        s.append(" ");
        s.append(self.direction_label());
        s
    }
}

} // verus!
