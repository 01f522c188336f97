//! Keystore account records: builder-style construction of an account
//! entry with its cipher, key-derivation and integrity parameters.

use vstd::prelude::*;
use vstd::string::StrSliceExecFns;

verus! {

/// Parameters of the key-derivation function of a keystore entry.
#[derive(Debug)]
pub struct AccountKDFParams {
    pub dklen: Option<usize>,
    pub prf: Option<String>,
    pub c: Option<usize>,
    pub n: Option<usize>,
    pub p: Option<usize>,
    pub r: Option<usize>,
    pub salt: Option<String>,
}

impl AccountKDFParams {
    /// A parameter record with every field unset.
    pub fn new() -> (params: AccountKDFParams)
        ensures
            params.dklen is None,
            params.prf is None,
            params.c is None,
            params.n is None,
            params.p is None,
            params.r is None,
            params.salt is None,
    {
        AccountKDFParams {
            dklen: None,
            prf: None,
            c: None,
            n: None,
            p: None,
            r: None,
            salt: None,
        }
    }
}

/// The cryptographic envelope of a keystore entry: cipher name and
/// text, cipher parameters as name/value pairs, key-derivation choice
/// and parameters, and the integrity code.
#[derive(Debug)]
pub struct AccountCrypto {
    pub cipher: Option<String>,
    pub ciphertext: Option<String>,
    pub cipherparams: Vec<(String, String)>,
    pub kdf: Option<String>,
    pub kdfparams: AccountKDFParams,
    pub mac: Option<String>,
}

impl AccountCrypto {
    /// An envelope with nothing chosen yet.
    pub fn new() -> (crypto: AccountCrypto)
        ensures
            crypto.cipher is None,
            crypto.ciphertext is None,
            crypto.cipherparams@.len() == 0,
            crypto.kdf is None,
            crypto.mac is None,
            crypto.kdfparams.dklen is None,
            crypto.kdfparams.prf is None,
            crypto.kdfparams.c is None,
            crypto.kdfparams.n is None,
            crypto.kdfparams.p is None,
            crypto.kdfparams.r is None,
            crypto.kdfparams.salt is None,
    {
        AccountCrypto {
            cipher: None,
            ciphertext: None,
            cipherparams: Vec::new(),
            kdf: None,
            kdfparams: AccountKDFParams::new(),
            mac: None,
        }
    }
}

/// One keystore account entry.
#[derive(Debug)]
pub struct Account {
    pub address: String,
    pub id: String,
    pub version: usize,
    pub crypto: AccountCrypto,
}

impl Account {
    /// Builds an account entry keeping only the last forty characters
    /// of the given address text, with a fresh, empty crypto envelope.
    pub fn new(id: String, address: String, version: usize) -> (account: Account)
        requires
            address@.len() >= 40,
        ensures
            account.address@ == address@.subrange(address@.len() - 40, address@.len() as int),
            account.id@ == id@,
            account.version == version,
            account.crypto.cipher is None,
            account.crypto.ciphertext is None,
            account.crypto.cipherparams@.len() == 0,
            account.crypto.kdf is None,
            account.crypto.mac is None,
    {
        let end = address.as_str().unicode_len();
        let start = end - 40;
        Account {
            address: address.as_str().substring_char(start, end).to_owned(),
            crypto: AccountCrypto::new(),
            id,
            version,
        }
    }

    /// Chooses the cipher.
    pub fn with_cipher(self, cipher: String) -> (account: Account)
        ensures
            account.crypto.cipher matches Some(c) && c@ == cipher@,
            account.address == self.address,
            account.id == self.id,
            account.version == self.version,
            account.crypto.ciphertext == self.crypto.ciphertext,
            account.crypto.cipherparams == self.crypto.cipherparams,
            account.crypto.kdf == self.crypto.kdf,
            account.crypto.kdfparams == self.crypto.kdfparams,
            account.crypto.mac == self.crypto.mac,
    {
        let mut account = self;
        account.crypto.cipher = Some(cipher);
        account
    }

    /// Records the cipher text.
    pub fn with_ciphertext(self, cipher_text: String) -> (account: Account)
        ensures
            account.crypto.ciphertext matches Some(c) && c@ == cipher_text@,
            account.address == self.address,
            account.id == self.id,
            account.version == self.version,
            account.crypto.cipher == self.crypto.cipher,
            account.crypto.cipherparams == self.crypto.cipherparams,
            account.crypto.kdf == self.crypto.kdf,
            account.crypto.kdfparams == self.crypto.kdfparams,
            account.crypto.mac == self.crypto.mac,
    {
        let mut account = self;
        account.crypto.ciphertext = Some(cipher_text);
        account
    }

    /// Replaces the cipher parameters with a single initialization
    /// vector entry.
    pub fn with_cipher_params(self, iv: String) -> (account: Account)
        ensures
            account.crypto.cipherparams@.len() == 1,
            account.crypto.cipherparams@[0].0@ == "iv"@,
            account.crypto.cipherparams@[0].1@ == iv@,
            account.address == self.address,
            account.id == self.id,
            account.version == self.version,
            account.crypto.cipher == self.crypto.cipher,
            account.crypto.ciphertext == self.crypto.ciphertext,
            account.crypto.kdf == self.crypto.kdf,
            account.crypto.kdfparams == self.crypto.kdfparams,
            account.crypto.mac == self.crypto.mac,
    {
        let mut account = self;
        let mut new_cipher_params: Vec<(String, String)> = Vec::new();
        new_cipher_params.push(("iv".to_owned(), iv));
        account.crypto.cipherparams = new_cipher_params;
        account
    }

    /// Chooses the key-derivation function.
    pub fn with_kdf(self, kdf: String) -> (account: Account)
        ensures
            account.crypto.kdf matches Some(c) && c@ == kdf@,
            account.address == self.address,
            account.id == self.id,
            account.version == self.version,
            account.crypto.cipher == self.crypto.cipher,
            account.crypto.ciphertext == self.crypto.ciphertext,
            account.crypto.cipherparams == self.crypto.cipherparams,
            account.crypto.kdfparams == self.crypto.kdfparams,
            account.crypto.mac == self.crypto.mac,
    {
        let mut account = self;
        account.crypto.kdf = Some(kdf);
        account
    }

    /// Records the integrity code.
    pub fn with_mac(self, mac: String) -> (account: Account)
        ensures
            account.crypto.mac matches Some(c) && c@ == mac@,
            account.address == self.address,
            account.id == self.id,
            account.version == self.version,
            account.crypto.cipher == self.crypto.cipher,
            account.crypto.ciphertext == self.crypto.ciphertext,
            account.crypto.cipherparams == self.crypto.cipherparams,
            account.crypto.kdf == self.crypto.kdf,
            account.crypto.kdfparams == self.crypto.kdfparams,
    {
        let mut account = self;
        account.crypto.mac = Some(mac);
        account
    }

    /// Fills in the password-based key-derivation parameters.
    pub fn with_pdkdf2_params(self, dklen: usize, salt: String, prf: String, c: usize) -> (account:
        Account)
        ensures
            account.crypto.kdfparams.dklen == Some(dklen),
            account.crypto.kdfparams.salt matches Some(s) && s@ == salt@,
            account.crypto.kdfparams.prf matches Some(p) && p@ == prf@,
            account.crypto.kdfparams.c == Some(c),
            account.crypto.kdfparams.n == self.crypto.kdfparams.n,
            account.crypto.kdfparams.p == self.crypto.kdfparams.p,
            account.crypto.kdfparams.r == self.crypto.kdfparams.r,
            account.address == self.address,
            account.id == self.id,
            account.version == self.version,
            account.crypto.cipher == self.crypto.cipher,
            account.crypto.ciphertext == self.crypto.ciphertext,
            account.crypto.cipherparams == self.crypto.cipherparams,
            account.crypto.kdf == self.crypto.kdf,
            account.crypto.mac == self.crypto.mac,
    {
        let mut account = self;
        account.crypto.kdfparams.dklen = Some(dklen);
        account.crypto.kdfparams.salt = Some(salt);
        account.crypto.kdfparams.prf = Some(prf);
        account.crypto.kdfparams.c = Some(c);
        account
    }
}

} // verus!
