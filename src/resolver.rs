use vstd::prelude::*;

verus! {

/// A function that the host offers to the guest in its user namespace.
#[derive(Debug, Clone, Copy, PartialEq, Eq, Structural)]
pub enum HostFunction {
    StoreSet,
    StoreRemove,
    StoreGet,
    EthereumCall,
    BytesToString,
    BytesToHex,
    BigIntToString,
    BigIntToHex,
    StringToH160,
    BytesToBase58,
    JsonFromBytes,
    JsonTryFromBytes,
    JsonToI64,
    JsonToU64,
    JsonToF64,
    JsonToBigInt,
    IpfsCat,
    IpfsMap,
    CryptoKeccak256,
    BigIntPlus,
    BigIntMinus,
    BigIntTimes,
    BigIntDividedBy,
    BigIntDividedByDecimal,
    BigIntMod,
    BigIntPow,
    BigDecimalPlus,
    BigDecimalMinus,
    BigDecimalTimes,
    BigDecimalDividedBy,
    BigDecimalEquals,
    BigDecimalToString,
    BigDecimalFromString,
    DataSourceCreate,
    DataSourceAddress,
    DataSourceNetwork,
    DataSourceCreateWithContext,
    DataSourceContext,
    EnsNameByHash,
    LogLog,
    ArweaveTransactionData,
    BoxProfile,
}

/// The host function that the guest imports as `name`, if any.
pub open spec fn host_function_named(name: Seq<char>) -> Option<HostFunction> {
    if name == "store.set"@ {
        Some(HostFunction::StoreSet)
    } else if name == "store.remove"@ {
        Some(HostFunction::StoreRemove)
    } else if name == "store.get"@ {
        Some(HostFunction::StoreGet)
    } else if name == "ethereum.call"@ {
        Some(HostFunction::EthereumCall)
    } else if name == "typeConversion.bytesToString"@ {
        Some(HostFunction::BytesToString)
    } else if name == "typeConversion.bytesToHex"@ {
        Some(HostFunction::BytesToHex)
    } else if name == "typeConversion.bigIntToString"@ {
        Some(HostFunction::BigIntToString)
    } else if name == "typeConversion.bigIntToHex"@ {
        Some(HostFunction::BigIntToHex)
    } else if name == "typeConversion.stringToH160"@ {
        Some(HostFunction::StringToH160)
    } else if name == "typeConversion.bytesToBase58"@ {
        Some(HostFunction::BytesToBase58)
    } else if name == "json.fromBytes"@ {
        Some(HostFunction::JsonFromBytes)
    } else if name == "json.try_fromBytes"@ {
        Some(HostFunction::JsonTryFromBytes)
    } else if name == "json.toI64"@ {
        Some(HostFunction::JsonToI64)
    } else if name == "json.toU64"@ {
        Some(HostFunction::JsonToU64)
    } else if name == "json.toF64"@ {
        Some(HostFunction::JsonToF64)
    } else if name == "json.toBigInt"@ {
        Some(HostFunction::JsonToBigInt)
    } else if name == "ipfs.cat"@ {
        Some(HostFunction::IpfsCat)
    } else if name == "ipfs.map"@ {
        Some(HostFunction::IpfsMap)
    } else if name == "crypto.keccak256"@ {
        Some(HostFunction::CryptoKeccak256)
    } else if name == "bigInt.plus"@ {
        Some(HostFunction::BigIntPlus)
    } else if name == "bigInt.minus"@ {
        Some(HostFunction::BigIntMinus)
    } else if name == "bigInt.times"@ {
        Some(HostFunction::BigIntTimes)
    } else if name == "bigInt.dividedBy"@ {
        Some(HostFunction::BigIntDividedBy)
    } else if name == "bigInt.dividedByDecimal"@ {
        Some(HostFunction::BigIntDividedByDecimal)
    } else if name == "bigInt.mod"@ {
        Some(HostFunction::BigIntMod)
    } else if name == "bigInt.pow"@ {
        Some(HostFunction::BigIntPow)
    } else if name == "bigDecimal.plus"@ {
        Some(HostFunction::BigDecimalPlus)
    } else if name == "bigDecimal.minus"@ {
        Some(HostFunction::BigDecimalMinus)
    } else if name == "bigDecimal.times"@ {
        Some(HostFunction::BigDecimalTimes)
    } else if name == "bigDecimal.dividedBy"@ {
        Some(HostFunction::BigDecimalDividedBy)
    } else if name == "bigDecimal.equals"@ {
        Some(HostFunction::BigDecimalEquals)
    } else if name == "bigDecimal.toString"@ {
        Some(HostFunction::BigDecimalToString)
    } else if name == "bigDecimal.fromString"@ {
        Some(HostFunction::BigDecimalFromString)
    } else if name == "dataSource.create"@ {
        Some(HostFunction::DataSourceCreate)
    } else if name == "dataSource.address"@ {
        Some(HostFunction::DataSourceAddress)
    } else if name == "dataSource.network"@ {
        Some(HostFunction::DataSourceNetwork)
    } else if name == "dataSource.createWithContext"@ {
        Some(HostFunction::DataSourceCreateWithContext)
    } else if name == "dataSource.context"@ {
        Some(HostFunction::DataSourceContext)
    } else if name == "ens.nameByHash"@ {
        Some(HostFunction::EnsNameByHash)
    } else if name == "log.log"@ {
        Some(HostFunction::LogLog)
    } else if name == "arweave.transactionData"@ {
        Some(HostFunction::ArweaveTransactionData)
    } else if name == "box.profile"@ {
        Some(HostFunction::BoxProfile)
    } else {
        None
    }
}

/// The text of the error for an import that the host does not offer.
pub open spec fn unknown_export_text(name: Seq<char>) -> Seq<char> {
    "Export '"@ + name + "' not found"@
}

/// Resolves the guest's imports from its user namespace.
#[derive(Debug)]
pub struct ModuleResolver;

impl ModuleResolver {
    /// The host function imported as `field_name`, or an error naming it.
    pub fn resolve_func(&self, field_name: &str) -> (r: Result<HostFunction, String>)
        ensures
            match host_function_named(field_name@) {
                Some(f) => r == Ok::<HostFunction, String>(f),
                None => r matches Err(e) && e@ == unknown_export_text(field_name@),
            },
    {
        let name = String::from_str(field_name);
        if name == String::from_str("store.set") {
            Ok(HostFunction::StoreSet)
        } else if name == String::from_str("store.remove") {
            Ok(HostFunction::StoreRemove)
        } else if name == String::from_str("store.get") {
            Ok(HostFunction::StoreGet)
        } else if name == String::from_str("ethereum.call") {
            Ok(HostFunction::EthereumCall)
        } else if name == String::from_str("typeConversion.bytesToString") {
            Ok(HostFunction::BytesToString)
        } else if name == String::from_str("typeConversion.bytesToHex") {
            Ok(HostFunction::BytesToHex)
        } else if name == String::from_str("typeConversion.bigIntToString") {
            Ok(HostFunction::BigIntToString)
        } else if name == String::from_str("typeConversion.bigIntToHex") {
            Ok(HostFunction::BigIntToHex)
        } else if name == String::from_str("typeConversion.stringToH160") {
            Ok(HostFunction::StringToH160)
        } else if name == String::from_str("typeConversion.bytesToBase58") {
            Ok(HostFunction::BytesToBase58)
        } else if name == String::from_str("json.fromBytes") {
            Ok(HostFunction::JsonFromBytes)
        } else if name == String::from_str("json.try_fromBytes") {
            Ok(HostFunction::JsonTryFromBytes)
        } else if name == String::from_str("json.toI64") {
            Ok(HostFunction::JsonToI64)
        } else if name == String::from_str("json.toU64") {
            Ok(HostFunction::JsonToU64)
        } else if name == String::from_str("json.toF64") {
            Ok(HostFunction::JsonToF64)
        } else if name == String::from_str("json.toBigInt") {
            Ok(HostFunction::JsonToBigInt)
        } else if name == String::from_str("ipfs.cat") {
            Ok(HostFunction::IpfsCat)
        } else if name == String::from_str("ipfs.map") {
            Ok(HostFunction::IpfsMap)
        } else if name == String::from_str("crypto.keccak256") {
            Ok(HostFunction::CryptoKeccak256)
        } else if name == String::from_str("bigInt.plus") {
            Ok(HostFunction::BigIntPlus)
        } else if name == String::from_str("bigInt.minus") {
            Ok(HostFunction::BigIntMinus)
        } else if name == String::from_str("bigInt.times") {
            Ok(HostFunction::BigIntTimes)
        } else if name == String::from_str("bigInt.dividedBy") {
            Ok(HostFunction::BigIntDividedBy)
        } else if name == String::from_str("bigInt.dividedByDecimal") {
            Ok(HostFunction::BigIntDividedByDecimal)
        } else if name == String::from_str("bigInt.mod") {
            Ok(HostFunction::BigIntMod)
        } else if name == String::from_str("bigInt.pow") {
            Ok(HostFunction::BigIntPow)
        } else if name == String::from_str("bigDecimal.plus") {
            Ok(HostFunction::BigDecimalPlus)
        } else if name == String::from_str("bigDecimal.minus") {
            Ok(HostFunction::BigDecimalMinus)
        } else if name == String::from_str("bigDecimal.times") {
            Ok(HostFunction::BigDecimalTimes)
        } else if name == String::from_str("bigDecimal.dividedBy") {
            Ok(HostFunction::BigDecimalDividedBy)
        } else if name == String::from_str("bigDecimal.equals") {
            Ok(HostFunction::BigDecimalEquals)
        } else if name == String::from_str("bigDecimal.toString") {
            Ok(HostFunction::BigDecimalToString)
        } else if name == String::from_str("bigDecimal.fromString") {
            Ok(HostFunction::BigDecimalFromString)
        } else if name == String::from_str("dataSource.create") {
            Ok(HostFunction::DataSourceCreate)
        } else if name == String::from_str("dataSource.address") {
            Ok(HostFunction::DataSourceAddress)
        } else if name == String::from_str("dataSource.network") {
            Ok(HostFunction::DataSourceNetwork)
        } else if name == String::from_str("dataSource.createWithContext") {
            Ok(HostFunction::DataSourceCreateWithContext)
        } else if name == String::from_str("dataSource.context") {
            Ok(HostFunction::DataSourceContext)
        } else if name == String::from_str("ens.nameByHash") {
            Ok(HostFunction::EnsNameByHash)
        } else if name == String::from_str("log.log") {
            Ok(HostFunction::LogLog)
        } else if name == String::from_str("arweave.transactionData") {
            Ok(HostFunction::ArweaveTransactionData)
        } else if name == String::from_str("box.profile") {
            Ok(HostFunction::BoxProfile)
        } else {
            let mut e = String::from_str("Export '");
            e.append(field_name);
            e.append("' not found");
            Err(e)
        }
    }
}

} // verus!
